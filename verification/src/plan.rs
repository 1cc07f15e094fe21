//! The extraction plan: which directories to make and which files to
//! write for an archive's entries.
//!
//! For each entry, in archive order, the plan joins the destination
//! directory with the entry's stored name, creates the parent directory of
//! that path when it has one, and then either creates the path itself (a
//! directory entry) or writes the entry's bytes to it (a file entry). The
//! caller applies the actions in order; `MkDirAll` is `create_dir_all`,
//! idempotent and recursive, so repeated or out-of-order parents are
//! harmless.

use vstd::prelude::*;

use crate::bytes::{
    copy_bytes, is_prefix, last_index_of, lemma_last_index_of, lemma_strip_is_prefix,
    lemma_strip_keeps, rfind_byte_before, strip_trailing_slashes, DOT, SLASH,
};

verus! {

/// One record of an archive: a relative path, a directory flag, and the
/// entry's bytes (empty for a directory).
pub struct Entry {
    pub name: Vec<u8>,
    pub is_dir: bool,
    pub data: Vec<u8>,
}

/// The mathematical face of an `Entry`: name, directory flag, bytes.
pub type EntryV = (Seq<u8>, bool, Seq<u8>);

impl View for Entry {
    type V = EntryV;

    open spec fn view(&self) -> EntryV {
        (self.name@, self.is_dir, self.data@)
    }
}

/// One filesystem step of an extraction: create a directory and its
/// missing ancestors, or write a file with the given bytes.
#[derive(Debug, PartialEq, Eq)]
pub enum FsAction {
    MkDirAll(Vec<u8>),
    WriteFile(Vec<u8>, Vec<u8>),
}

/// The mathematical face of an `FsAction`.
pub enum ActionV {
    MkDirAll(Seq<u8>),
    WriteFile(Seq<u8>, Seq<u8>),
}

impl View for FsAction {
    type V = ActionV;

    open spec fn view(&self) -> ActionV {
        match self {
            FsAction::MkDirAll(p) => ActionV::MkDirAll(p@),
            FsAction::WriteFile(p, d) => ActionV::WriteFile(p@, d@),
        }
    }
}

/// The path an action touches.
pub open spec fn action_path(a: ActionV) -> Seq<u8> {
    match a {
        ActionV::MkDirAll(p) => p,
        ActionV::WriteFile(p, _) => p,
    }
}

/// `name` placed under the directory `dest`: a separator is inserted
/// unless `dest` is empty or already ends in one.
pub open spec fn join(dest: Seq<u8>, name: Seq<u8>) -> Seq<u8> {
    if dest.len() == 0 {
        name
    } else if dest.last() == SLASH {
        dest + name
    } else {
        dest + seq![SLASH] + name
    }
}

/// The parent directory of a path: trailing separators are dropped, then
/// everything from the last separator on. Empty when the path has no
/// parent; creating the empty path is a no-op.
pub open spec fn parent_of(p: Seq<u8>) -> Seq<u8> {
    let t = strip_trailing_slashes(p);
    if last_index_of(t, SLASH) == -1 {
        Seq::empty()
    } else {
        t.subrange(0, last_index_of(t, SLASH))
    }
}

/// The actions one entry contributes: its parent directory when it has
/// one, then the entry itself as a directory or a file.
pub open spec fn entry_actions(dest: Seq<u8>, e: EntryV) -> Seq<ActionV> {
    let p = join(dest, e.0);
    let par = parent_of(p);
    let pre: Seq<ActionV> = if par.len() > 0 {
        seq![ActionV::MkDirAll(par)]
    } else {
        Seq::empty()
    };
    let act: Seq<ActionV> = if e.1 {
        seq![ActionV::MkDirAll(p)]
    } else {
        seq![ActionV::WriteFile(p, e.2)]
    };
    pre + act
}

/// The whole plan: each entry's actions, in archive order.
pub open spec fn plan_spec(dest: Seq<u8>, es: Seq<EntryV>) -> Seq<ActionV>
    decreases es.len(),
{
    if es.len() == 0 {
        Seq::empty()
    } else {
        entry_actions(dest, es.first()) + plan_spec(dest, es.drop_first())
    }
}

/// Appending one entry appends exactly its actions.
pub proof fn lemma_plan_snoc(dest: Seq<u8>, es: Seq<EntryV>, e: EntryV)
    ensures
        plan_spec(dest, es.push(e)) == plan_spec(dest, es) + entry_actions(dest, e),
    decreases es.len(),
{
    if es.len() == 0 {
        assert(es.push(e).drop_first() =~= Seq::<EntryV>::empty());
        assert(es.push(e).first() == e);
        assert(plan_spec(dest, es.push(e)) == entry_actions(dest, e) + plan_spec(
            dest,
            es.push(e).drop_first(),
        ));
        assert(plan_spec(dest, es.push(e)) =~= plan_spec(dest, es) + entry_actions(dest, e));
    } else {
        assert(es.push(e).first() == es.first());
        assert(es.push(e).drop_first() =~= es.drop_first().push(e));
        lemma_plan_snoc(dest, es.drop_first(), e);
        assert(plan_spec(dest, es.push(e)) =~= plan_spec(dest, es) + entry_actions(dest, e));
    }
}

/// The name holds at least one byte that is not a separator.
pub open spec fn has_non_separator(name: Seq<u8>) -> bool {
    exists|m: int| 0 <= m < name.len() && name[m] != SLASH
}

/// Position `i` of `name` starts a `..` segment: two dots standing alone
/// between separators or the name's ends — the component that climbs to
/// the parent directory.
pub open spec fn dotdot_at(name: Seq<u8>, i: int) -> bool {
    &&& 0 <= i
    &&& i + 2 <= name.len()
    &&& name[i] == DOT
    &&& name[i + 1] == DOT
    &&& i == 0 || name[i - 1] == SLASH
    &&& i + 2 == name.len() || name[i + 2] == SLASH
}

/// The name holds a `..` segment somewhere.
pub open spec fn has_dotdot_segment(name: Seq<u8>) -> bool {
    exists|i: int| dotdot_at(name, i)
}

/// Some entry's name holds a `..` segment, so extracting the archive
/// could climb out of the destination.
pub open spec fn has_traversal_entry(es: Seq<EntryV>) -> bool {
    exists|i: int| 0 <= i < es.len() && has_dotdot_segment((#[trigger] es[i]).0)
}

/// Whether `name` holds a `..` segment, matching `has_dotdot_segment`.
pub fn name_has_dotdot(name: &Vec<u8>) -> (b: bool)
    ensures
        b == has_dotdot_segment(name@),
{
    let n = name.len();
    let mut i: usize = 0;
    while n >= 2 && i <= n - 2
        invariant
            i <= n == name@.len(),
            forall|k: int| 0 <= k < i ==> !dotdot_at(name@, k),
        decreases n - i,
    {
        if name[i] == DOT && name[i + 1] == DOT && (i == 0 || name[i - 1] == SLASH) && (i + 2
            == n || name[i + 2] == SLASH) {
            proof {
                assert(dotdot_at(name@, i as int));
            }
            return true;
        }
        i = i + 1;
    }
    proof {
        assert forall|k: int| !dotdot_at(name@, k) by {
            if 0 <= k < i {
            } else {
                assert(k < 0 || k + 2 > name@.len());
            }
        }
    }
    false
}

/// Whether some entry's name holds a `..` segment, matching
/// `has_traversal_entry`.
pub fn entries_have_traversal(entries: &Vec<Entry>) -> (b: bool)
    ensures
        b == has_traversal_entry(entries@.map_values(|e: Entry| e@)),
{
    let ghost evs = entries@.map_values(|e: Entry| e@);
    let mut i: usize = 0;
    while i < entries.len()
        invariant
            i <= entries@.len(),
            evs == entries@.map_values(|e: Entry| e@),
            forall|k: int| 0 <= k < i ==> !has_dotdot_segment((#[trigger] evs[k]).0),
        decreases entries@.len() - i,
    {
        if name_has_dotdot(&entries[i].name) {
            proof {
                assert(has_dotdot_segment(evs[i as int].0));
            }
            return true;
        }
        i = i + 1;
    }
    false
}

/// The parent of `name` joined under a destination that is nonempty and
/// free of a trailing separator keeps the destination as a prefix,
/// provided the name holds a byte that is not a separator.
pub proof fn lemma_parent_under_dest(dest: Seq<u8>, name: Seq<u8>)
    requires
        dest.len() > 0,
        dest.last() != SLASH,
        has_non_separator(name),
    ensures
        is_prefix(dest, parent_of(join(dest, name))),
{
    let p = join(dest, name);
    let m = choose|m: int| 0 <= m < name.len() && name[m] != SLASH;
    let g = dest.len() + 1 + m;
    assert(p[g] == name[m]);
    lemma_strip_keeps(p, g);
    lemma_strip_is_prefix(p);
    let t = strip_trailing_slashes(p);
    assert(t[dest.len() as int] == p[dest.len() as int]);
    assert(p[dest.len() as int] == SLASH);
    lemma_last_index_of(t, SLASH);
    let li = last_index_of(t, SLASH);
    assert(li >= dest.len());
    assert(parent_of(p).subrange(0, dest.len() as int) =~= dest);
}

/// Law: every path a plan touches lies under the destination, when the
/// destination is nonempty and free of a trailing separator and every
/// entry name holds a byte that is not a separator.
pub proof fn lemma_plan_rooted(dest: Seq<u8>, es: Seq<EntryV>)
    requires
        dest.len() > 0,
        dest.last() != SLASH,
        forall|i: int| 0 <= i < es.len() ==> #[trigger] has_non_separator(es[i].0),
    ensures
        forall|j: int| 0 <= j < plan_spec(dest, es).len() ==> is_prefix(
            dest,
            action_path(#[trigger] plan_spec(dest, es)[j]),
        ),
    decreases es.len(),
{
    if es.len() > 0 {
        let ea = entry_actions(dest, es.first());
        let rest = plan_spec(dest, es.drop_first());
        let plan = plan_spec(dest, es);
        assert(forall|i: int| 0 <= i < es.drop_first().len() ==> #[trigger] has_non_separator(
            es.drop_first()[i].0,
        )) by {
            assert(forall|i: int| 0 <= i < es.drop_first().len() ==> es.drop_first()[i]
                == es[i + 1]);
        }
        lemma_plan_rooted(dest, es.drop_first());
        let p0 = join(dest, es.first().0);
        assert(has_non_separator(es.first().0));
        lemma_parent_under_dest(dest, es.first().0);
        assert(p0.subrange(0, dest.len() as int) =~= dest);
        assert forall|j: int| 0 <= j < plan.len() implies is_prefix(
            dest,
            action_path(plan[j]),
        ) by {
            if j < ea.len() {
                assert(plan[j] == ea[j]);
            } else {
                assert(plan[j] == rest[j - ea.len()]);
            }
        }
    }
}

/// Law: a plan writes bytes `d` to a path `p` precisely when the archive
/// has a file entry with those bytes whose name joins under the
/// destination to `p` — no file is lost and none is invented.
pub proof fn lemma_plan_writes(dest: Seq<u8>, es: Seq<EntryV>)
    ensures
        forall|p: Seq<u8>, d: Seq<u8>| #[trigger] plan_spec(dest, es).contains(
            ActionV::WriteFile(p, d),
        ) <==> exists|i: int| 0 <= i < es.len() && !(#[trigger] es[i]).1 && p == join(
            dest,
            es[i].0,
        ) && d == es[i].2,
    decreases es.len(),
{
    let plan = plan_spec(dest, es);
    if es.len() > 0 {
        lemma_plan_writes(dest, es.drop_first());
        let ea = entry_actions(dest, es.first());
        let rest = plan_spec(dest, es.drop_first());
        assert forall|p: Seq<u8>, d: Seq<u8>| #[trigger] plan.contains(
            ActionV::WriteFile(p, d),
        ) implies exists|i: int| 0 <= i < es.len() && !(#[trigger] es[i]).1 && p == join(
            dest,
            es[i].0,
        ) && d == es[i].2 by {
            let j = choose|j: int| 0 <= j < plan.len() && plan[j] == ActionV::WriteFile(p, d);
            if j < ea.len() {
                assert(ea[j] == ActionV::WriteFile(p, d));
                assert(!es.first().1 && p == join(dest, es[0].0) && d == es[0].2);
            } else {
                assert(rest[j - ea.len()] == ActionV::WriteFile(p, d));
                assert(rest.contains(ActionV::WriteFile(p, d)));
                let i0 = choose|i0: int| 0 <= i0 < es.drop_first().len()
                    && !es.drop_first()[i0].1 && p == join(dest, es.drop_first()[i0].0)
                    && d == es.drop_first()[i0].2;
                assert(es.drop_first()[i0] == es[i0 + 1]);
                assert(0 <= i0 + 1 < es.len() && !es[i0 + 1].1 && p == join(dest, es[i0 + 1].0)
                    && d == es[i0 + 1].2);
            }
        }
        assert forall|p: Seq<u8>, d: Seq<u8>| (exists|i: int| 0 <= i < es.len()
            && !(#[trigger] es[i]).1 && p == join(dest, es[i].0) && d
            == es[i].2) implies #[trigger] plan.contains(ActionV::WriteFile(p, d)) by {
            let i = choose|i: int| 0 <= i < es.len() && !es[i].1 && p == join(dest, es[i].0)
                && d == es[i].2;
            if i == 0 {
                let par = parent_of(join(dest, es[0].0));
                let k: int = if par.len() > 0 { 1 } else { 0 };
                assert(plan[k] == ea[k]);
                assert(ea[k] == ActionV::WriteFile(p, d));
            } else {
                assert(es.drop_first()[i - 1] == es[i]);
                assert(rest.contains(ActionV::WriteFile(p, d)));
                let j0 = choose|j0: int| 0 <= j0 < rest.len() && rest[j0] == ActionV::WriteFile(
                    p,
                    d,
                );
                assert(plan[ea.len() + j0] == ActionV::WriteFile(p, d));
            }
        }
    }
}

/// Law: a write is immediately preceded by the creation of its parent
/// directory, unless the parent is empty; and every directory entry puts
/// the creation of its own joined path in the plan, so an archive of
/// directory entries alone still produces its directories.
pub proof fn lemma_dirs_before_files(dest: Seq<u8>, es: Seq<EntryV>)
    ensures
        forall|j: int| 0 <= j < plan_spec(dest, es).len() ==> (#[trigger] plan_spec(
            dest,
            es,
        )[j] matches ActionV::WriteFile(p, d) ==> parent_of(p).len() == 0 || (0 < j
            && plan_spec(dest, es)[j - 1] == ActionV::MkDirAll(parent_of(p)))),
        forall|i: int| 0 <= i < es.len() && (#[trigger] es[i]).1 ==> plan_spec(dest, es)
            .contains(ActionV::MkDirAll(join(dest, es[i].0))),
    decreases es.len(),
{
    let plan = plan_spec(dest, es);
    if es.len() > 0 {
        lemma_dirs_before_files(dest, es.drop_first());
        let ea = entry_actions(dest, es.first());
        let rest = plan_spec(dest, es.drop_first());
        let p0 = join(dest, es.first().0);
        let par0 = parent_of(p0);
        assert forall|j: int| 0 <= j < plan.len() implies ((#[trigger] plan[j])
            matches ActionV::WriteFile(p, d) ==> parent_of(p).len() == 0 || (0 < j && plan[j - 1]
            == ActionV::MkDirAll(parent_of(p)))) by {
            if j < ea.len() {
                assert(plan[j] == ea[j]);
                if !es.first().1 && par0.len() > 0 && j == 1 {
                    assert(plan[0] == ea[0]);
                }
            } else {
                let j0 = j - ea.len();
                assert(plan[j] == rest[j0]);
                match rest[j0] {
                    ActionV::WriteFile(p, d) => {
                        if parent_of(p).len() > 0 {
                            assert(0 < j0 && rest[j0 - 1] == ActionV::MkDirAll(parent_of(p)));
                            assert(plan[j - 1] == rest[j0 - 1]);
                        }
                    },
                    ActionV::MkDirAll(p) => {},
                }
            }
        }
        assert forall|i: int| 0 <= i < es.len() && (#[trigger] es[i]).1 implies plan.contains(
            ActionV::MkDirAll(join(dest, es[i].0)),
        ) by {
            if i == 0 {
                let k: int = if par0.len() > 0 { 1 } else { 0 };
                assert(plan[k] == ea[k]);
                assert(ea[k] == ActionV::MkDirAll(p0));
            } else {
                assert(es.drop_first()[i - 1] == es[i]);
                assert(rest.contains(ActionV::MkDirAll(join(dest, es[i].0))));
                let j0 = choose|j0: int| 0 <= j0 < rest.len() && rest[j0] == ActionV::MkDirAll(
                    join(dest, es[i].0),
                );
                assert(plan[ea.len() + j0] == ActionV::MkDirAll(join(dest, es[i].0)));
            }
        }
    }
}

/// `name` placed under the directory `dest`, matching `join` exactly.
pub fn join_path(dest: &Vec<u8>, name: &Vec<u8>) -> (r: Vec<u8>)
    ensures
        r@ == join(dest@, name@),
{
    let mut r = copy_bytes(dest);
    if dest.len() > 0 && dest[dest.len() - 1] != SLASH {
        r.push(SLASH);
    }
    let mut i: usize = 0;
    while i < name.len()
        invariant
            i <= name@.len(),
            r@ == join(dest@, name@.take(i as int)),
        decreases name@.len() - i,
    {
        r.push(name[i]);
        i = i + 1;
        proof {
            assert(name@.take(i as int) =~= name@.take(i as int - 1).push(name@[i - 1]));
            assert(r@ =~= join(dest@, name@.take(i as int)));
        }
    }
    proof {
        assert(name@.take(name@.len() as int) =~= name@);
    }
    r
}

/// The parent directory of `p`, matching `parent_of` exactly.
pub fn parent_path(p: &Vec<u8>) -> (r: Vec<u8>)
    ensures
        r@ == parent_of(p@),
{
    let ghost t = strip_trailing_slashes(p@);
    let mut end: usize = p.len();
    proof {
        assert(p@.take(end as int) =~= p@);
    }
    while end > 0 && p[end - 1] == SLASH
        invariant
            end <= p@.len(),
            t == strip_trailing_slashes(p@.take(end as int)),
        decreases end,
    {
        proof {
            assert(p@.take(end as int).last() == p@[end - 1]);
            assert(p@.take(end as int).drop_last() =~= p@.take(end as int - 1));
        }
        end = end - 1;
    }
    proof {
        assert(t == p@.take(end as int));
    }
    match rfind_byte_before(p, end, SLASH) {
        Some(i) => {
            let mut r: Vec<u8> = Vec::new();
            let mut j: usize = 0;
            while j < i
                invariant
                    j <= i < p@.len(),
                    r@ == p@.take(j as int),
                decreases i - j,
            {
                r.push(p[j]);
                j = j + 1;
                proof {
                    assert(r@ =~= p@.take(j as int));
                }
            }
            proof {
                assert(r@ =~= t.subrange(0, i as int));
            }
            r
        },
        None => {
            Vec::new()
        },
    }
}

/// The extraction plan for `entries` under `dest`, matching `plan_spec`
/// exactly.
pub fn plan_entries(dest: &Vec<u8>, entries: &Vec<Entry>) -> (r: Vec<FsAction>)
    ensures
        r@.map_values(|a: FsAction| a@) == plan_spec(
            dest@,
            entries@.map_values(|e: Entry| e@),
        ),
{
    let ghost evs = entries@.map_values(|e: Entry| e@);
    let mut r: Vec<FsAction> = Vec::new();
    let mut i: usize = 0;
    while i < entries.len()
        invariant
            i <= entries@.len(),
            evs == entries@.map_values(|e: Entry| e@),
            r@.map_values(|a: FsAction| a@) == plan_spec(dest@, evs.take(i as int)),
        decreases entries@.len() - i,
    {
        let e = &entries[i];
        let p = join_path(dest, &e.name);
        let par = parent_path(&p);
        let ghost before = r@;
        if par.len() > 0 {
            r.push(FsAction::MkDirAll(par));
        }
        if e.is_dir {
            r.push(FsAction::MkDirAll(p));
        } else {
            let body = copy_bytes(&e.data);
            r.push(FsAction::WriteFile(p, body));
        }
        i = i + 1;
        proof {
            lemma_plan_snoc(dest@, evs.take(i as int - 1), evs[i - 1]);
            assert(evs.take(i as int) =~= evs.take(i as int - 1).push(evs[i - 1]));
            assert(r@.map_values(|a: FsAction| a@) =~= before.map_values(|a: FsAction| a@)
                + entry_actions(dest@, evs[i - 1]));
        }
    }
    proof {
        assert(evs.take(evs.len() as int) =~= evs);
    }
    r
}

} // verus!
