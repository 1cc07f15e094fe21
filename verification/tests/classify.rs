//! Classification of file names into archive kinds.

use untar::name::{classify, ArchiveKind};

fn kind_of(name: &[u8]) -> ArchiveKind {
    classify(&name.to_vec())
}

#[test]
fn tar_name() {
    assert_eq!(kind_of(b"foo.tar"), ArchiveKind::Tar);
    assert_eq!(kind_of(b"dir/sub/foo.tar"), ArchiveKind::Tar);
}

#[test]
fn tgz_name() {
    assert_eq!(kind_of(b"foo.tgz"), ArchiveKind::Tgz);
    assert_eq!(kind_of(b"dir/foo.tgz"), ArchiveKind::Tgz);
}

#[test]
fn tar_gz_name() {
    assert_eq!(kind_of(b"foo.tar.gz"), ArchiveKind::TarGz);
    assert_eq!(kind_of(b"a/b/foo.tar.gz"), ArchiveKind::TarGz);
}

#[test]
fn zip_name() {
    assert_eq!(kind_of(b"foo.zip"), ArchiveKind::Zip);
}

#[test]
fn plain_gz_is_skipped() {
    assert_eq!(kind_of(b"data.gz"), ArchiveKind::Unsupported);
    assert_eq!(kind_of(b"dir/data.gz"), ArchiveKind::Unsupported);
}

#[test]
fn unknown_extensions_are_skipped() {
    assert_eq!(kind_of(b"foo.txt"), ArchiveKind::Unsupported);
    assert_eq!(kind_of(b"foo"), ArchiveKind::Unsupported);
    assert_eq!(kind_of(b""), ArchiveKind::Unsupported);
    assert_eq!(kind_of(b"foo."), ArchiveKind::Unsupported);
    assert_eq!(kind_of(b"dir.tar/foo"), ArchiveKind::Unsupported);
}

#[test]
fn matching_is_case_sensitive() {
    assert_eq!(kind_of(b"foo.TAR"), ArchiveKind::Unsupported);
    assert_eq!(kind_of(b"foo.Tar.GZ"), ArchiveKind::Unsupported);
    assert_eq!(kind_of(b"foo.Zip"), ArchiveKind::Unsupported);
}

#[test]
fn leading_dot_gives_no_extension() {
    assert_eq!(kind_of(b".tar"), ArchiveKind::Unsupported);
    assert_eq!(kind_of(b"dir/.tgz"), ArchiveKind::Unsupported);
}

#[test]
fn trailing_separators_are_ignored() {
    // As std's path handling sees it, `x.tar/` still names `x.tar`.
    assert_eq!(kind_of(b"x.tar/"), ArchiveKind::Tar);
    assert_eq!(kind_of(b"dir/x.tgz//"), ArchiveKind::Tgz);
    assert_eq!(kind_of(b"a.tar.gz/"), ArchiveKind::TarGz);
    assert_eq!(kind_of(b"///"), ArchiveKind::Unsupported);
}

#[test]
fn hidden_tarball_still_counts() {
    // `.foo.tar.gz` has extension `gz` and stem `.foo.tar`.
    assert_eq!(kind_of(b".foo.tar.gz"), ArchiveKind::TarGz);
}
