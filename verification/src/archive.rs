//! The archive readers, behind trusted wrappers, and the verified
//! dispatch that turns one input file into its extraction plan.
//!
//! Decompression and the two archive formats are the business of outside
//! libraries; each is called in one place, through a wrapper whose
//! contract names its result and when it succeeds. Everything around the
//! calls — choosing the format, planning the filesystem actions, refusing
//! tar entries that climb out of the destination — is verified. The plan
//! is built only after the whole archive parses: a failure mid-archive
//! therefore plans, and the caller writes, nothing.

use vstd::prelude::*;

use crate::bytes::{is_prefix, is_suffix, SLASH};
use crate::name::{
    classify, classify_spec, extension_of, is_gz_ext, is_tar_ext, is_tgz_ext, is_zip_ext,
    stem_of, tar_suffix, ArchiveKind,
};
use crate::plan::{
    action_path, entries_have_traversal, has_non_separator, has_traversal_entry, join,
    lemma_dirs_before_files, lemma_plan_rooted, lemma_plan_writes, parent_of, plan_entries,
    plan_spec, ActionV, Entry, EntryV, FsAction,
};

verus! {

#[verifier::external_type_specification]
#[verifier::external_body]
pub struct ExIoError(std::io::Error);

/// The bytes a gzip stream decompresses to: a function of the stream
/// alone, computed by flate2, stated here only by name.
pub uninterp spec fn gunzip_of(data: Seq<u8>) -> Seq<u8>;

/// The entries a tar stream holds, in order — name, directory flag,
/// contents: a function of the stream alone, computed by the tar reader,
/// stated here only by name.
pub uninterp spec fn tar_entries_of(data: Seq<u8>) -> Seq<EntryV>;

/// The entries a zip archive holds, in central-directory order — name,
/// directory flag, contents: a function of the archive alone, computed by
/// the zip reader, stated here only by name.
pub uninterp spec fn zip_entries_of(data: Seq<u8>) -> Seq<EntryV>;

/// Whether the gzip decoder accepts `data` as a well-formed stream: on
/// in-memory bytes its success depends on the bytes alone, stated here
/// only by name.
pub uninterp spec fn gzip_accepts(data: Seq<u8>) -> bool;

/// Whether the tar reader accepts `data` as a well-formed stream: on
/// in-memory bytes its success depends on the bytes alone, stated here
/// only by name.
pub uninterp spec fn tar_accepts(data: Seq<u8>) -> bool;

/// Whether the zip reader accepts `data` as a well-formed archive: on
/// in-memory bytes its success depends on the bytes alone, stated here
/// only by name.
pub uninterp spec fn zip_accepts(data: Seq<u8>) -> bool;

/// Relies on flate2's `read::GzDecoder` driven by
/// `std::io::Read::read_to_end`: decompresses one gzip stream. Reading
/// from an in-memory slice, both the result and whether the decode
/// succeeds are functions of the input bytes alone; a malformed stream,
/// and nothing else, is an error.
#[verifier::external_body]
fn gunzip(data: &Vec<u8>) -> (r: Result<Vec<u8>, std::io::Error>)
    ensures
        r matches Ok(out) ==> out@ == gunzip_of(data@),
        r is Ok <==> gzip_accepts(data@),
{
    let mut out: Vec<u8> = Vec::new();
    let mut dec = flate2::read::GzDecoder::new(&data[..]);
    match std::io::Read::read_to_end(&mut dec, &mut out) {
        Ok(_) => Ok(out),
        Err(e) => Err(e),
    }
}

/// Relies on `tar::Archive`: `entries` walks the stream's records in
/// order, and each record's `path_bytes`, `entry_type().is_dir()` and
/// contents are functions of the stream alone. Reading from an in-memory
/// slice, whether the walk succeeds is a function of the bytes alone too;
/// a malformed stream, and nothing else, is an error.
#[verifier::external_body]
fn tar_entry_list(data: &Vec<u8>) -> (r: Result<Vec<Entry>, std::io::Error>)
    ensures
        r matches Ok(es) ==> es@.map_values(|e: Entry| e@) == tar_entries_of(data@),
        r is Ok <==> tar_accepts(data@),
{
    let mut out: Vec<Entry> = Vec::new();
    let mut ar = tar::Archive::new(&data[..]);
    for ent in ar.entries()? {
        let mut ent = ent?;
        let name = ent.path_bytes().into_owned();
        let is_dir = ent.header().entry_type().is_dir();
        let mut body: Vec<u8> = Vec::new();
        std::io::Read::read_to_end(&mut ent, &mut body)?;
        out.push(Entry { name, is_dir, data: body });
    }
    Ok(out)
}

/// Relies on `zip::ZipArchive`: `by_index` yields the entries in
/// central-directory order, and each entry's `name`, `is_dir` and
/// contents are functions of the archive alone. Reading from an
/// in-memory cursor, whether the walk succeeds is a function of the bytes
/// alone too; a malformed archive, and nothing else, is an error, carried
/// over to `std::io::Error` by the crate's own conversion.
#[verifier::external_body]
fn zip_entry_list(data: &Vec<u8>) -> (r: Result<Vec<Entry>, std::io::Error>)
    ensures
        r matches Ok(es) ==> es@.map_values(|e: Entry| e@) == zip_entries_of(data@),
        r is Ok <==> zip_accepts(data@),
{
    let mut out: Vec<Entry> = Vec::new();
    let cursor = std::io::Cursor::new(&data[..]);
    let mut ar = zip::ZipArchive::new(cursor).map_err(std::io::Error::from)?;
    for i in 0..ar.len() {
        let mut ent = ar.by_index(i).map_err(std::io::Error::from)?;
        let name = ent.name().as_bytes().to_vec();
        let is_dir = ent.is_dir();
        let mut body: Vec<u8> = Vec::new();
        std::io::Read::read_to_end(&mut ent, &mut body)?;
        out.push(Entry { name, is_dir, data: body });
    }
    Ok(out)
}

/// The entries one input's bytes hold under the given format: none for an
/// unsupported name, the tar entries of the decompressed bytes for a
/// gzip-compressed tarball.
pub open spec fn entries_of(kind: ArchiveKind, data: Seq<u8>) -> Seq<EntryV> {
    match kind {
        ArchiveKind::Tar => tar_entries_of(data),
        ArchiveKind::TarGz => tar_entries_of(gunzip_of(data)),
        ArchiveKind::Tgz => tar_entries_of(gunzip_of(data)),
        ArchiveKind::Zip => zip_entries_of(data),
        ArchiveKind::Unsupported => Seq::empty(),
    }
}

/// The extraction plan one input calls for: its entries, planned under
/// the destination.
pub open spec fn planned_actions(kind: ArchiveKind, data: Seq<u8>, dest: Seq<u8>) -> Seq<
    ActionV,
> {
    plan_spec(dest, entries_of(kind, data))
}

/// Whether one input's bytes extract without an error under the given
/// format: the readers accept them, and for a tar stream no entry name
/// holds a `..` segment — such an entry could climb out of the
/// destination and is refused as fatal. An unsupported name is skipped,
/// never an error.
pub open spec fn input_accepted(kind: ArchiveKind, data: Seq<u8>) -> bool {
    match kind {
        ArchiveKind::Tar => tar_accepts(data) && !has_traversal_entry(tar_entries_of(data)),
        ArchiveKind::TarGz => gzip_accepts(data) && tar_accepts(gunzip_of(data))
            && !has_traversal_entry(tar_entries_of(gunzip_of(data))),
        ArchiveKind::Tgz => gzip_accepts(data) && tar_accepts(gunzip_of(data))
            && !has_traversal_entry(tar_entries_of(gunzip_of(data))),
        ArchiveKind::Zip => zip_accepts(data),
        ArchiveKind::Unsupported => true,
    }
}

/// Relies on `std::io::Error::new`: builds the error returned for a tar
/// entry whose name holds a `..` segment.
#[verifier::external_body]
fn traversal_error() -> std::io::Error {
    std::io::Error::new(std::io::ErrorKind::InvalidData, "path traversal entry in tar stream")
}

/// Decompress one gzip stream in memory. It succeeds exactly on the
/// streams the decoder accepts, and the result is then exactly the
/// stream's decompressed bytes.
pub fn decompress_gzip(data: &Vec<u8>) -> (r: Result<Vec<u8>, std::io::Error>)
    ensures
        r matches Ok(out) ==> out@ == gunzip_of(data@),
        r is Ok <==> gzip_accepts(data@),
{
    gunzip(data)
}

/// The extraction plan for one uncompressed tar stream under `dest`. It
/// succeeds exactly on the streams the reader accepts whose entry names
/// are free of `..` segments; a traversal entry is a fatal error.
pub fn tar_actions(data: &Vec<u8>, dest: &Vec<u8>) -> (r: Result<
    Vec<FsAction>,
    std::io::Error,
>)
    ensures
        r matches Ok(acts) ==> acts@.map_values(|a: FsAction| a@) == plan_spec(
            dest@,
            tar_entries_of(data@),
        ),
        r is Ok <==> tar_accepts(data@) && !has_traversal_entry(tar_entries_of(data@)),
{
    match tar_entry_list(data) {
        Ok(es) => {
            if entries_have_traversal(&es) {
                Err(traversal_error())
            } else {
                Ok(plan_entries(dest, &es))
            }
        },
        Err(e) => Err(e),
    }
}

/// The extraction plan for one zip archive under `dest`. It succeeds
/// exactly on the archives the reader accepts; entry names are taken as
/// stored, with no screening against escaping the destination.
pub fn zip_actions(data: &Vec<u8>, dest: &Vec<u8>) -> (r: Result<
    Vec<FsAction>,
    std::io::Error,
>)
    ensures
        r matches Ok(acts) ==> acts@.map_values(|a: FsAction| a@) == plan_spec(
            dest@,
            zip_entries_of(data@),
        ),
        r is Ok <==> zip_accepts(data@),
{
    match zip_entry_list(data) {
        Ok(es) => Ok(plan_entries(dest, &es)),
        Err(e) => Err(e),
    }
}

/// One input file, dispatched on its name: the extraction plan its bytes
/// call for under `dest`. A name that calls for no extraction yields the
/// empty plan, never an error; for the rest, success holds exactly when
/// the input's bytes are accepted under the name's format.
pub fn extraction_actions(path: &Vec<u8>, data: &Vec<u8>, dest: &Vec<u8>) -> (r: Result<
    Vec<FsAction>,
    std::io::Error,
>)
    ensures
        r matches Ok(acts) ==> acts@.map_values(|a: FsAction| a@) == planned_actions(
            classify_spec(path@),
            data@,
            dest@,
        ),
        r is Ok <==> input_accepted(classify_spec(path@), data@),
        classify_spec(path@) is Unsupported ==> r is Ok,
{
    match classify(path) {
        ArchiveKind::Tar => tar_actions(data, dest),
        ArchiveKind::TarGz => {
            match decompress_gzip(data) {
                Ok(t) => tar_actions(&t, dest),
                Err(e) => Err(e),
            }
        },
        ArchiveKind::Tgz => {
            match decompress_gzip(data) {
                Ok(t) => tar_actions(&t, dest),
                Err(e) => Err(e),
            }
        },
        ArchiveKind::Zip => zip_actions(data, dest),
        ArchiveKind::Unsupported => {
            let acts: Vec<FsAction> = Vec::new();
            proof {
                assert(acts@.map_values(|a: FsAction| a@) =~= Seq::<ActionV>::empty());
            }
            Ok(acts)
        },
    }
}

/// Law: a file whose extension is missing or is none of `gz`, `tgz`,
/// `tar` and `zip` is skipped — its plan is empty, whatever its bytes,
/// and `extraction_actions` raises no error for it.
pub proof fn lemma_skip_unknown_extension(path: Seq<u8>, data: Seq<u8>, dest: Seq<u8>)
    requires
        extension_of(path) matches Some(e) ==> !(is_gz_ext(e) || is_tgz_ext(e) || is_tar_ext(e)
            || is_zip_ext(e)),
    ensures
        classify_spec(path) is Unsupported,
        planned_actions(classify_spec(path), data, dest) == Seq::<ActionV>::empty(),
        input_accepted(classify_spec(path), data),
{
    crate::name::lemma_unknown_extension_unsupported(path);
}

/// Law: a `gz` file whose stem does not end in `.tar` is skipped — its
/// plan is empty, whatever its bytes — and `extraction_actions` raises no
/// error for it.
pub proof fn lemma_skip_plain_gz(path: Seq<u8>, data: Seq<u8>, dest: Seq<u8>)
    requires
        extension_of(path) matches Some(e) && is_gz_ext(e),
        !is_suffix(tar_suffix(), stem_of(path)),
    ensures
        classify_spec(path) is Unsupported,
        planned_actions(classify_spec(path), data, dest) == Seq::<ActionV>::empty(),
        input_accepted(classify_spec(path), data),
{
    crate::name::lemma_plain_gz_unsupported(path);
}

/// Law: extracting a gzip-compressed tarball writes exactly the files of
/// the uncompressed tar stream — a write of bytes `d` to path `p` is
/// planned precisely when the stream has a file entry with those bytes
/// whose name joins under the destination to `p`.
pub proof fn lemma_targz_files(data: Seq<u8>, dest: Seq<u8>)
    ensures
        forall|p: Seq<u8>, d: Seq<u8>| #[trigger] planned_actions(
            ArchiveKind::TarGz,
            data,
            dest,
        ).contains(ActionV::WriteFile(p, d)) <==> exists|i: int| 0 <= i < tar_entries_of(
            gunzip_of(data),
        ).len() && !(#[trigger] tar_entries_of(gunzip_of(data))[i]).1 && p == join(
            dest,
            tar_entries_of(gunzip_of(data))[i].0,
        ) && d == tar_entries_of(gunzip_of(data))[i].2,
{
    lemma_plan_writes(dest, tar_entries_of(gunzip_of(data)));
}

/// Law: in a zip extraction every write is immediately preceded by the
/// creation of its path's parent directory, unless that parent is empty,
/// and every directory entry has the creation of its own joined path
/// planned — directory entries alone still produce their directories.
pub proof fn lemma_zip_dirs_first(data: Seq<u8>, dest: Seq<u8>)
    ensures
        forall|j: int| 0 <= j < planned_actions(ArchiveKind::Zip, data, dest).len()
            ==> ((#[trigger] planned_actions(ArchiveKind::Zip, data, dest)[j])
            matches ActionV::WriteFile(p, d) ==> parent_of(p).len() == 0 || (0 < j
            && planned_actions(ArchiveKind::Zip, data, dest)[j - 1] == ActionV::MkDirAll(
            parent_of(p),
        ))),
        forall|i: int| 0 <= i < zip_entries_of(data).len() && (#[trigger] zip_entries_of(
            data,
        )[i]).1 ==> planned_actions(ArchiveKind::Zip, data, dest).contains(ActionV::MkDirAll(
            join(dest, zip_entries_of(data)[i].0),
        )),
{
    lemma_dirs_before_files(dest, zip_entries_of(data));
}

/// Law: whatever the format, every path a plan touches lies under the
/// destination, when the destination is nonempty and free of a trailing
/// separator and every entry name holds a byte that is not a separator.
pub proof fn lemma_extraction_rooted(kind: ArchiveKind, data: Seq<u8>, dest: Seq<u8>)
    requires
        dest.len() > 0,
        dest.last() != SLASH,
        forall|i: int| 0 <= i < entries_of(kind, data).len() ==> #[trigger] has_non_separator(
            entries_of(kind, data)[i].0,
        ),
    ensures
        forall|j: int| 0 <= j < planned_actions(kind, data, dest).len() ==> is_prefix(
            dest,
            action_path(#[trigger] planned_actions(kind, data, dest)[j]),
        ),
{
    lemma_plan_rooted(dest, entries_of(kind, data));
}

/// Law: with a destination that is nonempty and free of a trailing
/// separator, an archive whose entry names are all nonempty relative
/// paths — none beginning with a separator — extracts entirely under the
/// destination: every planned path carries it as a prefix, whatever the
/// current working directory contributes to the destination itself.
pub proof fn lemma_relative_entries_rooted(kind: ArchiveKind, data: Seq<u8>, dest: Seq<u8>)
    requires
        dest.len() > 0,
        dest.last() != SLASH,
        forall|i: int| 0 <= i < entries_of(kind, data).len() ==> ((#[trigger] entries_of(
            kind,
            data,
        )[i]).0.len() > 0 && entries_of(kind, data)[i].0[0] != SLASH),
    ensures
        forall|j: int| 0 <= j < planned_actions(kind, data, dest).len() ==> is_prefix(
            dest,
            action_path(#[trigger] planned_actions(kind, data, dest)[j]),
        ),
{
    assert forall|i: int| 0 <= i < entries_of(kind, data).len() implies #[trigger] has_non_separator(
        entries_of(kind, data)[i].0,
    ) by {
        assert(entries_of(kind, data)[i].0[0] != SLASH);
    }
    lemma_extraction_rooted(kind, data, dest);
}

} // verus!
