//! File-name classification: which archive format, if any, a path calls
//! for.
//!
//! The extension is matched literally and case-sensitively against `gz`,
//! `tgz`, `tar` and `zip`; a `gz` file counts only when its stem ends in
//! `.tar`. Every other name is `Unsupported` and is skipped without an
//! error.

use vstd::prelude::*;

use crate::bytes::{
    is_suffix, last_index_of, lemma_last_index_of, rfind_byte_before, strip_trailing_slashes,
    DOT, SLASH,
};

verus! {

/// The archive formats this library recognises, decided from a file name
/// alone. `TarGz` is a gzip-compressed tarball named `<stem>.tar.gz`;
/// `Tgz` is the same format under a `.tgz` name.
#[derive(Clone, Copy, Debug, PartialEq, Eq, Structural)]
pub enum ArchiveKind {
    Tar,
    TarGz,
    Tgz,
    Zip,
    Unsupported,
}

/// The file-name portion of a path: trailing separators are ignored, then
/// everything after the last `/` — the whole path when it has no `/`.
pub open spec fn file_name_of(path: Seq<u8>) -> Seq<u8> {
    let t = strip_trailing_slashes(path);
    t.subrange(last_index_of(t, SLASH) + 1, t.len() as int)
}

/// Index of the extension dot inside a file name. `-1` when the name has
/// no dot; `0`, which also yields no extension, when its only dot leads
/// (a hidden file such as `.bashrc`).
pub open spec fn dot_index(name: Seq<u8>) -> int {
    last_index_of(name, DOT)
}

/// The extension of a path's file name: the portion after the final dot,
/// or `None` when there is no dot past the first byte.
pub open spec fn extension_of(path: Seq<u8>) -> Option<Seq<u8>> {
    let name = file_name_of(path);
    if dot_index(name) <= 0 {
        Option::None
    } else {
        Option::Some(name.subrange(dot_index(name) + 1, name.len() as int))
    }
}

/// The stem of a path's file name: the portion before the final dot, or
/// the whole name when there is no extension.
pub open spec fn stem_of(path: Seq<u8>) -> Seq<u8> {
    let name = file_name_of(path);
    if dot_index(name) <= 0 {
        name
    } else {
        name.subrange(0, dot_index(name))
    }
}

/// The extension `gz`.
pub open spec fn is_gz_ext(e: Seq<u8>) -> bool {
    e.len() == 2 && e[0] == 'g' as u8 && e[1] == 'z' as u8
}

/// The extension `tgz`.
pub open spec fn is_tgz_ext(e: Seq<u8>) -> bool {
    e.len() == 3 && e[0] == 't' as u8 && e[1] == 'g' as u8 && e[2] == 'z' as u8
}

/// The extension `tar`.
pub open spec fn is_tar_ext(e: Seq<u8>) -> bool {
    e.len() == 3 && e[0] == 't' as u8 && e[1] == 'a' as u8 && e[2] == 'r' as u8
}

/// The extension `zip`.
pub open spec fn is_zip_ext(e: Seq<u8>) -> bool {
    e.len() == 3 && e[0] == 'z' as u8 && e[1] == 'i' as u8 && e[2] == 'p' as u8
}

/// The suffix `.tar`, which the stem of a `.gz` name must carry.
pub open spec fn tar_suffix() -> Seq<u8> {
    seq![DOT, 't' as u8, 'a' as u8, 'r' as u8]
}

/// The format a path calls for, from its file name alone.
pub open spec fn classify_spec(path: Seq<u8>) -> ArchiveKind {
    match extension_of(path) {
        Option::None => ArchiveKind::Unsupported,
        Option::Some(e) => {
            if is_gz_ext(e) {
                if is_suffix(tar_suffix(), stem_of(path)) {
                    ArchiveKind::TarGz
                } else {
                    ArchiveKind::Unsupported
                }
            } else if is_tgz_ext(e) {
                ArchiveKind::Tgz
            } else if is_tar_ext(e) {
                ArchiveKind::Tar
            } else if is_zip_ext(e) {
                ArchiveKind::Zip
            } else {
                ArchiveKind::Unsupported
            }
        },
    }
}

/// A name whose extension is missing or is none of `gz`, `tgz`, `tar` and
/// `zip` is classified `Unsupported`, so nothing is extracted for it.
pub proof fn lemma_unknown_extension_unsupported(path: Seq<u8>)
    requires
        extension_of(path) matches Some(e) ==> !(is_gz_ext(e) || is_tgz_ext(e) || is_tar_ext(e)
            || is_zip_ext(e)),
    ensures
        classify_spec(path) is Unsupported,
{
}

/// A `gz` name whose stem does not end in `.tar` is classified
/// `Unsupported`, so nothing is extracted for it and no error is raised.
pub proof fn lemma_plain_gz_unsupported(path: Seq<u8>)
    requires
        extension_of(path) matches Some(e) && is_gz_ext(e),
        !is_suffix(tar_suffix(), stem_of(path)),
    ensures
        classify_spec(path) is Unsupported,
{
}

/// The format `path` calls for, matching `classify_spec` exactly.
#[verifier::rlimit(60)]
pub fn classify(path: &Vec<u8>) -> (k: ArchiveKind)
    ensures
        k == classify_spec(path@),
{
    let ghost t = strip_trailing_slashes(path@);
    let mut end: usize = path.len();
    proof {
        assert(path@.take(end as int) =~= path@);
    }
    while end > 0 && path[end - 1] == SLASH
        invariant
            end <= path@.len(),
            t == strip_trailing_slashes(path@.take(end as int)),
        decreases end,
    {
        proof {
            assert(path@.take(end as int).last() == path@[end - 1]);
            assert(path@.take(end as int).drop_last() =~= path@.take(end as int - 1));
        }
        end = end - 1;
    }
    proof {
        assert(t == path@.take(end as int));
    }
    let ghost name = file_name_of(path@);
    let ns: usize = match rfind_byte_before(path, end, SLASH) {
        Some(i) => i + 1,
        None => {
            proof {
                lemma_last_index_of(t, SLASH);
            }
            0
        },
    };
    proof {
        lemma_last_index_of(t, SLASH);
        assert(name =~= path@.subrange(ns as int, end as int));
    }
    // Locate the extension dot: the last dot of the stripped path serves,
    // provided it falls inside the file name.
    let d: usize = match rfind_byte_before(path, end, DOT) {
        Some(i) => {
            proof {
                lemma_last_index_of(t, DOT);
            }
            if i < ns {
                proof {
                    assert forall|j: int| 0 <= j < name.len() implies name[j] != DOT by {
                        assert(name[j] == path@[ns + j]);
                    }
                    crate::bytes::lemma_last_index_none(name, DOT);
                }
                return ArchiveKind::Unsupported;
            }
            proof {
                assert(name[i - ns] == DOT);
                assert forall|j: int| i - ns < j < name.len() implies name[j] != DOT by {
                    assert(name[j] == path@[ns + j]);
                }
                crate::bytes::lemma_last_index_is(name, DOT, i - ns);
            }
            i
        },
        None => {
            proof {
                lemma_last_index_of(t, DOT);
                assert forall|j: int| 0 <= j < name.len() implies name[j] != DOT by {
                    assert(name[j] == path@[ns + j]);
                }
                crate::bytes::lemma_last_index_none(name, DOT);
            }
            return ArchiveKind::Unsupported;
        },
    };
    // Here the last dot of the path sits at `d`, inside the file name.
    if d == ns {
        // A leading dot alone gives no extension.
        return ArchiveKind::Unsupported;
    }
    let ghost ext = name.subrange(dot_index(name) + 1, name.len() as int);
    proof {
        assert(extension_of(path@) == Some(ext));
        assert forall|j: int| 0 <= j < ext.len() implies ext[j] == path@[d + 1 + j] by {
            assert(ext[j] == name[d - ns + 1 + j]);
        }
    }
    let el = end - d - 1;
    if el == 2 && path[d + 1] == 'g' as u8 && path[d + 2] == 'z' as u8 {
        // `gz`: a tarball only when the stem ends in `.tar`.
        let ghost stem = stem_of(path@);
        proof {
            assert(stem =~= path@.subrange(ns as int, d as int));
        }
        if d >= ns + 4 && path[d - 4] == DOT && path[d - 3] == 't' as u8
            && path[d - 2] == 'a' as u8 && path[d - 1] == 'r' as u8 {
            proof {
                assert(stem.subrange(stem.len() - 4, stem.len() as int) =~= tar_suffix());
            }
            ArchiveKind::TarGz
        } else {
            proof {
                if is_suffix(tar_suffix(), stem) {
                    assert(stem.len() >= 4);
                    assert(forall|j: int| 0 <= j < 4 ==> stem.subrange(
                        stem.len() - 4,
                        stem.len() as int,
                    )[j] == tar_suffix()[j]);
                    assert(stem[stem.len() - 4] == DOT);
                    assert(stem[stem.len() - 3] == 't' as u8);
                    assert(stem[stem.len() - 2] == 'a' as u8);
                    assert(stem[stem.len() - 1] == 'r' as u8);
                }
            }
            ArchiveKind::Unsupported
        }
    } else if el == 3 && path[d + 1] == 't' as u8 && path[d + 2] == 'g' as u8
        && path[d + 3] == 'z' as u8 {
        ArchiveKind::Tgz
    } else if el == 3 && path[d + 1] == 't' as u8 && path[d + 2] == 'a' as u8
        && path[d + 3] == 'r' as u8 {
        ArchiveKind::Tar
    } else if el == 3 && path[d + 1] == 'z' as u8 && path[d + 2] == 'i' as u8
        && path[d + 3] == 'p' as u8 {
        ArchiveKind::Zip
    } else {
        ArchiveKind::Unsupported
    }
}

} // verus!
