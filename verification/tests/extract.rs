//! Extraction plans computed from real archives, built in memory.

use untar::archive::{decompress_gzip, extraction_actions, tar_actions, zip_actions};
use untar::plan::FsAction;

fn mkdir(p: &[u8]) -> FsAction {
    FsAction::MkDirAll(p.to_vec())
}

fn write(p: &[u8], d: &[u8]) -> FsAction {
    FsAction::WriteFile(p.to_vec(), d.to_vec())
}

/// A small tree as a tar stream: a directory `a/`, a file `a/b.txt`
/// holding `hello`, and a file `c.txt` holding `world`.
fn tree_tar() -> Vec<u8> {
    let mut b = tar::Builder::new(Vec::new());
    let mut dh = tar::Header::new_gnu();
    dh.set_entry_type(tar::EntryType::dir());
    dh.set_size(0);
    b.append_data(&mut dh, "a/", &b""[..]).unwrap();
    let mut fh = tar::Header::new_gnu();
    fh.set_size(5);
    b.append_data(&mut fh, "a/b.txt", &b"hello"[..]).unwrap();
    let mut fh2 = tar::Header::new_gnu();
    fh2.set_size(5);
    b.append_data(&mut fh2, "c.txt", &b"world"[..]).unwrap();
    b.into_inner().unwrap()
}

/// The same tree as a zip archive.
fn tree_zip() -> Vec<u8> {
    let opts = zip::write::SimpleFileOptions::default()
        .compression_method(zip::CompressionMethod::Stored);
    let mut w = zip::ZipWriter::new(std::io::Cursor::new(Vec::new()));
    w.add_directory("a", opts).unwrap();
    w.start_file("a/b.txt", opts).unwrap();
    std::io::Write::write_all(&mut w, b"hello").unwrap();
    w.start_file("c.txt", opts).unwrap();
    std::io::Write::write_all(&mut w, b"world").unwrap();
    w.finish().unwrap().into_inner()
}

/// One regular-file record as raw tar bytes: an old-style header block,
/// the data, and the closing zero blocks. Written by hand because the
/// tar builder refuses `..` in names, which some tests need.
fn raw_tar(name: &[u8], data: &[u8]) -> Vec<u8> {
    let mut h = vec![0u8; 512];
    h[0..name.len()].copy_from_slice(name);
    h[100..108].copy_from_slice(b"0000644\0");
    h[108..116].copy_from_slice(b"0000000\0");
    h[116..124].copy_from_slice(b"0000000\0");
    let size = format!("{:011o}\0", data.len());
    h[124..136].copy_from_slice(size.as_bytes());
    h[136..148].copy_from_slice(b"00000000000\0");
    for b in &mut h[148..156] {
        *b = b' ';
    }
    h[156] = b'0';
    let sum: u32 = h.iter().map(|&b| b as u32).sum();
    let cksum = format!("{:06o}\0 ", sum);
    h[148..156].copy_from_slice(cksum.as_bytes());
    let mut out = h;
    out.extend_from_slice(data);
    let pad = (512 - data.len() % 512) % 512;
    out.extend(std::iter::repeat(0u8).take(pad + 1024));
    out
}

fn gzip(data: &[u8]) -> Vec<u8> {
    let mut enc = flate2::write::GzEncoder::new(Vec::new(), flate2::Compression::default());
    std::io::Write::write_all(&mut enc, data).unwrap();
    enc.finish().unwrap()
}

fn plan_for(name: &[u8], data: &[u8], dest: &[u8]) -> Vec<FsAction> {
    extraction_actions(&name.to_vec(), &data.to_vec(), &dest.to_vec()).unwrap()
}

/// The tree's plan under `out`: each entry makes its parent, then itself.
fn expected_tree_plan() -> Vec<FsAction> {
    vec![
        mkdir(b"out"),
        mkdir(b"out/a/"),
        mkdir(b"out/a"),
        write(b"out/a/b.txt", b"hello"),
        mkdir(b"out"),
        write(b"out/c.txt", b"world"),
    ]
}

#[test]
fn tar_plan() {
    let plan = plan_for(b"tree.tar", &tree_tar(), b"out");
    assert_eq!(plan, expected_tree_plan());
}

#[test]
fn tar_gz_plan() {
    let plan = plan_for(b"tree.tar.gz", &gzip(&tree_tar()), b"out");
    assert_eq!(plan, expected_tree_plan());
}

#[test]
fn tgz_plan() {
    let plan = plan_for(b"tree.tgz", &gzip(&tree_tar()), b"out");
    assert_eq!(plan, expected_tree_plan());
}

#[test]
fn zip_plan() {
    let plan = plan_for(b"tree.zip", &tree_zip(), b"out");
    assert_eq!(plan, expected_tree_plan());
}

#[test]
fn round_trip_three_forms_agree() {
    // The same tree packed as tar, tgz and zip extracts to the same plan
    // under the default destination `.`.
    let tar_plan = plan_for(b"tree.tar", &tree_tar(), b".");
    let tgz_plan = plan_for(b"tree.tgz", &gzip(&tree_tar()), b".");
    let zip_plan = plan_for(b"tree.zip", &tree_zip(), b".");
    assert_eq!(tar_plan, tgz_plan);
    assert_eq!(tar_plan, zip_plan);
    assert_eq!(
        tar_plan,
        vec![
            mkdir(b"."),
            mkdir(b"./a/"),
            mkdir(b"./a"),
            write(b"./a/b.txt", b"hello"),
            mkdir(b"."),
            write(b"./c.txt", b"world"),
        ]
    );
}

#[test]
fn unknown_extension_plans_nothing() {
    let plan = plan_for(b"notes.txt", b"arbitrary bytes", b"out");
    assert_eq!(plan, vec![]);
}

#[test]
fn plain_gz_plans_nothing() {
    // A gzip file that is no tarball is skipped without an error, even
    // though its bytes are a perfectly good gzip stream.
    let plan = plan_for(b"data.gz", &gzip(b"just some data"), b"out");
    assert_eq!(plan, vec![]);
}

#[test]
fn zip_directories_precede_their_files() {
    let opts = zip::write::SimpleFileOptions::default()
        .compression_method(zip::CompressionMethod::Stored);
    let mut w = zip::ZipWriter::new(std::io::Cursor::new(Vec::new()));
    w.start_file("a/b/c.txt", opts).unwrap();
    std::io::Write::write_all(&mut w, b"deep").unwrap();
    w.add_directory("empty", opts).unwrap();
    let data = w.finish().unwrap().into_inner();
    let plan = plan_for(b"nested.zip", &data, b"out");
    assert_eq!(
        plan,
        vec![
            mkdir(b"out/a/b"),
            write(b"out/a/b/c.txt", b"deep"),
            mkdir(b"out"),
            mkdir(b"out/empty/"),
        ]
    );
    // Each write comes right after the creation of its parent, and the
    // directory-only entry still produces its directory.
    assert_eq!(plan[0], mkdir(b"out/a/b"));
    assert!(matches!(plan[1], FsAction::WriteFile(..)));
}

#[test]
fn destination_is_honored() {
    let plan = plan_for(b"tree.zip", &tree_zip(), b"/tmp/out");
    assert!(!plan.is_empty());
    for action in &plan {
        let p = match action {
            FsAction::MkDirAll(p) => p,
            FsAction::WriteFile(p, _) => p,
        };
        assert!(p.starts_with(b"/tmp/out"));
    }
}

#[test]
fn malformed_gzip_is_an_error() {
    let r = extraction_actions(
        &b"broken.tar.gz".to_vec(),
        &b"not a gzip stream".to_vec(),
        &b"out".to_vec(),
    );
    assert!(r.is_err());
}

#[test]
fn malformed_tar_is_an_error() {
    let junk: Vec<u8> = std::iter::repeat(0xffu8).take(512).collect();
    let r = extraction_actions(&b"broken.tar".to_vec(), &junk, &b"out".to_vec());
    assert!(r.is_err());
}

#[test]
fn malformed_zip_is_an_error() {
    let r = extraction_actions(
        &b"broken.zip".to_vec(),
        &b"not a zip archive".to_vec(),
        &b"out".to_vec(),
    );
    assert!(r.is_err());
}

#[test]
fn hand_written_tar_is_accepted() {
    // Control for the traversal tests: the hand-written record parses.
    let plan = plan_for(b"plain.tar", &raw_tar(b"ok.txt", b"fine"), b"out");
    assert_eq!(plan, vec![mkdir(b"out"), write(b"out/ok.txt", b"fine")]);
}

#[test]
fn tar_traversal_entry_is_fatal() {
    let r = extraction_actions(
        &b"evil.tar".to_vec(),
        &raw_tar(b"../evil.txt", b"boom"),
        &b"out".to_vec(),
    );
    assert!(r.is_err());
}

#[test]
fn tar_inner_traversal_segment_is_fatal() {
    let r = extraction_actions(
        &b"evil.tar".to_vec(),
        &raw_tar(b"a/../evil.txt", b"boom"),
        &b"out".to_vec(),
    );
    assert!(r.is_err());
}

#[test]
fn tar_gz_traversal_entry_is_fatal() {
    let r = extraction_actions(
        &b"evil.tar.gz".to_vec(),
        &gzip(&raw_tar(b"../evil.txt", b"boom")),
        &b"out".to_vec(),
    );
    assert!(r.is_err());
}

#[test]
fn dots_inside_a_name_are_no_traversal() {
    let plan = plan_for(b"plain.tar", &raw_tar(b"a..b.txt", b"fine"), b"out");
    assert_eq!(plan, vec![mkdir(b"out"), write(b"out/a..b.txt", b"fine")]);
}

#[test]
fn gzip_round_trip() {
    let original = b"the quick brown fox jumps over the lazy dog".to_vec();
    let compressed = gzip(&original);
    assert_ne!(compressed, original);
    let restored = decompress_gzip(&compressed).unwrap();
    assert_eq!(restored, original);
}

#[test]
fn tar_actions_direct() {
    let plan = tar_actions(&tree_tar(), &b"out".to_vec()).unwrap();
    assert_eq!(plan, expected_tree_plan());
}

#[test]
fn zip_actions_direct() {
    let plan = zip_actions(&tree_zip(), &b"out".to_vec()).unwrap();
    assert_eq!(plan, expected_tree_plan());
}

#[test]
fn empty_destination_writes_relative_paths() {
    let plan = plan_for(b"tree.tar", &tree_tar(), b"");
    assert_eq!(
        plan,
        vec![
            mkdir(b"a/"),
            mkdir(b"a"),
            write(b"a/b.txt", b"hello"),
            write(b"c.txt", b"world"),
        ]
    );
}
