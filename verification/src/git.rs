use vstd::prelude::*;

use crate::version::{Version, semver_of, parse_semver, version_le};

verus! {

/// The versions read from a list of tag names: tags that do not parse
/// as semantic versions are passed over.
pub open spec fn parsed_tags(tags: Seq<Seq<char>>) -> Seq<Version>
    decreases tags.len(),
{
    if tags.len() == 0 {
        Seq::empty()
    } else {
        (match semver_of(tags[0]) {
            Some(t) => seq![Version { major: t.0, minor: t.1, patch: t.2 }],
            None => Seq::<Version>::empty(),
        }) + parsed_tags(tags.skip(1))
    }
}

/// A repository's tags, read as semantic versions.
#[derive(Debug, Clone)]
pub struct GitTags {
    pub tags: Vec<Version>,
}

impl GitTags {
    /// Reads each tag as a semantic version; what does not parse is
    /// left out.
    pub fn new(tags: &Vec<String>) -> (r: GitTags)
        ensures
            r.tags@ == parsed_tags(tags.deep_view()),
    {
        let ghost tags_v = tags.deep_view();
        let mut out: Vec<Version> = Vec::new();
        let mut i: usize = 0;
        proof {
            assert(tags_v.skip(0) =~= tags_v);
            assert(out@ + parsed_tags(tags_v) =~= parsed_tags(tags_v));
        }
        while i < tags.len()
            invariant
                i <= tags@.len(),
                tags_v == tags.deep_view(),
                tags_v.len() == tags@.len(),
                parsed_tags(tags_v) == out@ + parsed_tags(tags_v.skip(i as int)),
            decreases tags@.len() - i,
        {
            let ghost rest = tags_v.skip(i as int);
            proof {
                assert(rest[0] == tags_v[i as int]);
                assert(tags_v[i as int] == tags@[i as int]@);
                assert(rest.skip(1) =~= tags_v.skip(i as int + 1));
            }
            match parse_semver(tags[i].as_str()) {
                Some(v) => {
                    out.push(v);
                    proof {
                        assert(parsed_tags(tags_v) =~= out@ + parsed_tags(
                            tags_v.skip(i as int + 1),
                        ));
                    }
                },
                None => {
                    proof {
                        assert(parsed_tags(tags_v) =~= out@ + parsed_tags(
                            tags_v.skip(i as int + 1),
                        ));
                    }
                },
            }
            i = i + 1;
        }
        proof {
            assert(tags_v.skip(tags_v.len() as int).len() == 0);
            assert(out@ =~= parsed_tags(tags_v));
        }
        GitTags { tags: out }
    }

    /// The greatest tagged version, by the semantic order.
    pub fn get_latest(&self) -> (r: Option<Version>)
        ensures
            match r {
                Some(v) => self.tags@.contains(v) && (forall|j: int|
                    0 <= j < self.tags@.len() ==> version_le(#[trigger] self.tags@[j], v)),
                None => self.tags@.len() == 0,
            },
    {
        if self.tags.len() == 0 {
            return None;
        }
        let mut best = self.tags[0];
        let mut i: usize = 1;
        while i < self.tags.len()
            invariant
                1 <= i <= self.tags@.len(),
                self.tags@.contains(best),
                forall|j: int| 0 <= j < i ==> version_le(#[trigger] self.tags@[j], best),
            decreases self.tags@.len() - i,
        {
            if best.lt(&self.tags[i]) {
                best = self.tags[i];
            }
            i = i + 1;
        }
        Some(best)
    }
}

} // verus!
