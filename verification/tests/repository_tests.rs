use vat::VatError;
use vat::manifest::Package;
use vat::reference::{PackageFrom, PackageResolver};
use vat::vat_repository::VatRepo;
use vat::version::Version;

fn package_at(name: &str, version: Version) -> Package {
    let mut p = Package::default(name.to_string());
    p.package_info.version = version;
    p
}

#[test]
fn publishing_twice_is_a_version_conflict() {
    let mut repo = VatRepo::new();
    let p = package_at("p", Version::new(0, 1, 0));
    assert!(repo.publish_package(&p, "/ws/p", "first").is_ok());
    let again = repo.publish_package(&p, "/ws/p", "again");
    assert_eq!(again.unwrap_err(), VatError::VersionConflict);
}

#[test]
fn latest_follows_semantic_order_not_publish_order() {
    let mut repo = VatRepo::new();
    for v in [Version::new(0, 1, 0), Version::new(0, 2, 0), Version::new(0, 1, 5)] {
        let p = package_at("p", v);
        repo.publish_package(&p, "/ws/p", "m").unwrap();
    }
    assert_eq!(repo.get_latest_version("p"), Some(Version::new(0, 2, 0)));
}

#[test]
fn exact_version_resolves_to_its_storage() {
    let mut repo = VatRepo::new();
    for v in [Version::new(0, 1, 0), Version::new(0, 2, 0), Version::new(0, 1, 5)] {
        repo.publish_package(&package_at("p", v), "/ws/p", "m").unwrap();
    }
    let mut r = PackageResolver::new("p".to_string(), PackageFrom::Version(Version::new(0, 1, 5)));
    let path = repo.resolve_package_path(&r, "/repo").unwrap();
    assert_eq!(path, "/repo/p/0.1.5");

    // an unpublished exact version falls back to the latest resolution
    r.from = PackageFrom::Version(Version::new(9, 9, 9));
    let path = repo.resolve_package_path(&r, "/repo").unwrap();
    assert_eq!(path, "/repo/p/0.2.0");
}

#[test]
fn latest_resolves_to_newest_storage_or_workspace() {
    let mut repo = VatRepo::new();
    repo.publish_package(&package_at("p", Version::new(0, 1, 0)), "/ws/p", "m").unwrap();
    let r = PackageResolver::new("p".to_string(), PackageFrom::Latest);
    assert_eq!(repo.resolve_package_path(&r, "/repo").unwrap(), "/repo/p/0.1.0");

    // a linked package with no published version resolves to its workspace
    let mut repo2 = VatRepo::new();
    repo2.link_package(&package_at("q", Version::new(0, 0, 1)), "/ws/q").unwrap();
    let r2 = PackageResolver::new("q".to_string(), PackageFrom::Latest);
    assert_eq!(repo2.resolve_package_path(&r2, "/repo").unwrap(), "/ws/q");
}

#[test]
fn workspace_selector_reads_the_live_workspace() {
    let mut repo = VatRepo::new();
    repo.publish_package(&package_at("p", Version::new(0, 1, 0)), "/ws/p", "m").unwrap();
    let r = PackageResolver::new("p".to_string(), PackageFrom::Main);
    assert_eq!(repo.resolve_package_path(&r, "/repo").unwrap(), "/ws/p");
}

#[test]
fn unknown_name_is_package_not_found() {
    let repo = VatRepo::new();
    let r = PackageResolver::new("ghost".to_string(), PackageFrom::Latest);
    assert_eq!(
        repo.resolve_package_path(&r, "/repo").unwrap_err(),
        VatError::PackageNotFound
    );
}

#[test]
fn publishing_under_a_taken_directory_name_is_a_workspace_mismatch() {
    let mut repo = VatRepo::new();
    repo.publish_package(&package_at("p", Version::new(0, 1, 0)), "/ws/p", "m").unwrap();
    // another workspace whose directory is also called "p"
    let other = package_at("p", Version::new(0, 5, 0));
    let r = repo.publish_package(&other, "/elsewhere/p", "m");
    assert_eq!(r.unwrap_err(), VatError::WorkspaceMismatch);
}

#[test]
fn linking_twice_is_refused() {
    let mut repo = VatRepo::new();
    let p = package_at("p", Version::new(0, 1, 0));
    repo.link_package(&p, "/ws/p").unwrap();
    assert_eq!(repo.link_package(&p, "/ws/p").unwrap_err(), VatError::WorkspaceMismatch);
}

#[test]
fn version_exists_tracks_published_versions() {
    let mut repo = VatRepo::new();
    repo.publish_package(&package_at("p", Version::new(0, 1, 0)), "/ws/p", "m").unwrap();
    assert!(repo.version_exists("p", &Version::new(0, 1, 0)));
    assert!(!repo.version_exists("p", &Version::new(0, 2, 0)));
    assert!(!repo.version_exists("q", &Version::new(0, 1, 0)));
}

#[test]
fn catalog_document_round_trips() {
    let mut repo = VatRepo::new();
    for v in [Version::new(0, 1, 0), Version::new(0, 2, 0), Version::new(1, 0, 3)] {
        repo.publish_package(&package_at("p", v), "/ws/p", "a comment").unwrap();
    }
    repo.link_package(&package_at("empty", Version::new(0, 0, 0)), "/ws/empty").unwrap();

    let doc = repo.to_document();
    let back = VatRepo::from_document(doc.as_str()).unwrap();

    assert_eq!(back.packages.len(), repo.packages.len());
    for (orig, read) in repo.packages.iter().zip(back.packages.iter()) {
        assert_eq!(orig.0, read.0);
        assert_eq!(orig.1.main_branch_path, read.1.main_branch_path);
        assert_eq!(orig.1.git_url, read.1.git_url);
        assert_eq!(orig.1.versions.len(), read.1.versions.len());
        for (ov, rv) in orig.1.versions.iter().zip(read.1.versions.iter()) {
            assert_eq!(ov.0, rv.0);
            assert_eq!(ov.1.published_on, rv.1.published_on);
            assert_eq!(ov.1.version_comment, rv.1.version_comment);
        }
    }
}

#[test]
fn corrupt_documents_are_refused() {
    assert_eq!(VatRepo::from_document("").unwrap_err(), VatError::CatalogCorrupt);
    assert_eq!(VatRepo::from_document("zzz").unwrap_err(), VatError::CatalogCorrupt);
    // a valid document with junk after its end
    let repo = VatRepo::new();
    let mut doc = repo.to_document();
    doc.push('x');
    assert_eq!(VatRepo::from_document(doc.as_str()).unwrap_err(), VatError::CatalogCorrupt);
}

#[test]
fn empty_catalog_round_trips() {
    let repo = VatRepo::new();
    let doc = repo.to_document();
    let back = VatRepo::from_document(doc.as_str()).unwrap();
    assert_eq!(back.packages.len(), 0);
}
