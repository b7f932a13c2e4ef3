//! The reference index and the duplicate decision.
//!
//! Reference files are grouped by base name; a target file is a duplicate
//! when some reference file with the same base name holds exactly the same
//! bytes, and the match reported is the first such reference file in
//! reference-list order. `spec_find_duplicate` is that rule stated once
//! over the plain reference list; the index is only a faster way to apply
//! it, and its contract says exactly that.

use vstd::prelude::*;

use crate::compare::compare_content;
use crate::tree::{
    base_name, bytes_equal, clone_bytes, clone_file_entry, clone_path, views_of, FileEntry,
    FileEntryV, FilePath,
};

verus! {

/// Reference entry `r` is a duplicate source for target `t`: same base
/// name, same bytes.
pub open spec fn entry_matches(r: FileEntryV, t: FileEntryV) -> bool {
    base_name(r.path) == base_name(t.path) && r.content == t.content
}

/// The first reference entry, in reference-list order, that matches the
/// target `t`: the reference path reported for `t`, or `None` when no
/// reference matches.
pub open spec fn spec_find_duplicate(refs: Seq<FileEntryV>, t: FileEntryV) -> Option<Seq<Seq<u8>>>
    decreases refs.len(),
{
    if refs.len() == 0 {
        None
    } else if entry_matches(refs[0], t) {
        Some(refs[0].path)
    } else {
        spec_find_duplicate(refs.drop_first(), t)
    }
}

/// The reference entries whose base name is `n`, in reference-list order.
pub open spec fn by_name(refs: Seq<FileEntryV>, n: Seq<u8>) -> Seq<FileEntryV>
    decreases refs.len(),
{
    if refs.len() == 0 {
        Seq::empty()
    } else if base_name(refs[0].path) == n {
        seq![refs[0]] + by_name(refs.drop_first(), n)
    } else {
        by_name(refs.drop_first(), n)
    }
}

/// The path of the first entry of `ms` holding exactly the bytes `c`.
spec fn first_content_match(ms: Seq<FileEntryV>, c: Seq<u8>) -> Option<Seq<Seq<u8>>>
    decreases ms.len(),
{
    if ms.len() == 0 {
        None
    } else if ms[0].content == c {
        Some(ms[0].path)
    } else {
        first_content_match(ms.drop_first(), c)
    }
}

proof fn lemma_by_name_push(refs: Seq<FileEntryV>, e: FileEntryV, n: Seq<u8>)
    ensures
        by_name(refs.push(e), n) == (if base_name(e.path) == n {
            by_name(refs, n).push(e)
        } else {
            by_name(refs, n)
        }),
    decreases refs.len(),
{
    if refs.len() == 0 {
        assert(refs.push(e)[0] == e);
        assert(refs.push(e).drop_first() =~= Seq::<FileEntryV>::empty());
        if base_name(e.path) == n {
            assert(seq![e] + by_name(Seq::empty(), n) =~= by_name(refs, n).push(e));
        }
    } else {
        assert(refs.push(e)[0] == refs[0]);
        assert(refs.push(e).drop_first() =~= refs.drop_first().push(e));
        lemma_by_name_push(refs.drop_first(), e, n);
        if base_name(e.path) == n {
            assert(seq![refs[0]] + by_name(refs.drop_first(), n).push(e)
                =~= (seq![refs[0]] + by_name(refs.drop_first(), n)).push(e));
        }
    }
}

proof fn lemma_by_name_empty(refs: Seq<FileEntryV>, n: Seq<u8>)
    requires
        forall|i: int| 0 <= i < refs.len() ==> base_name((#[trigger] refs[i]).path) != n,
    ensures
        by_name(refs, n) == Seq::<FileEntryV>::empty(),
    decreases refs.len(),
{
    if refs.len() > 0 {
        assert(forall|i: int| 0 <= i < refs.drop_first().len()
            ==> #[trigger] refs.drop_first()[i] == refs[i + 1]);
        lemma_by_name_empty(refs.drop_first(), n);
    }
}

proof fn lemma_by_name_find(refs: Seq<FileEntryV>, t: FileEntryV)
    ensures
        first_content_match(by_name(refs, base_name(t.path)), t.content)
            == spec_find_duplicate(refs, t),
    decreases refs.len(),
{
    let n = base_name(t.path);
    if refs.len() > 0 {
        lemma_by_name_find(refs.drop_first(), t);
        if base_name(refs[0].path) == n {
            let grouped = seq![refs[0]] + by_name(refs.drop_first(), n);
            assert(grouped[0] == refs[0]);
            assert(grouped.drop_first() =~= by_name(refs.drop_first(), n));
        }
    }
}

proof fn lemma_first_content_at(ms: Seq<FileEntryV>, c: Seq<u8>, j: int)
    requires
        0 <= j < ms.len(),
        ms[j].content == c,
        forall|k: int| 0 <= k < j ==> (#[trigger] ms[k]).content != c,
    ensures
        first_content_match(ms, c) == Some(ms[j].path),
    decreases j,
{
    if j > 0 {
        assert(forall|k: int| 0 <= k < ms.drop_first().len()
            ==> #[trigger] ms.drop_first()[k] == ms[k + 1]);
        lemma_first_content_at(ms.drop_first(), c, j - 1);
    }
}

proof fn lemma_first_content_none(ms: Seq<FileEntryV>, c: Seq<u8>)
    requires
        forall|k: int| 0 <= k < ms.len() ==> (#[trigger] ms[k]).content != c,
    ensures
        first_content_match(ms, c) is None,
    decreases ms.len(),
{
    if ms.len() > 0 {
        assert(forall|k: int| 0 <= k < ms.drop_first().len()
            ==> #[trigger] ms.drop_first()[k] == ms[k + 1]);
        lemma_first_content_none(ms.drop_first(), c);
    }
}

/// A target with no same-named reference file is never reported, however
/// its bytes compare: matching is scoped to the base name.
pub proof fn lemma_no_name_no_duplicate(refs: Seq<FileEntryV>, t: FileEntryV)
    requires
        forall|i: int| 0 <= i < refs.len()
            ==> base_name((#[trigger] refs[i]).path) != base_name(t.path),
    ensures
        spec_find_duplicate(refs, t) is None,
    decreases refs.len(),
{
    if refs.len() > 0 {
        assert(forall|i: int| 0 <= i < refs.drop_first().len()
            ==> #[trigger] refs.drop_first()[i] == refs[i + 1]);
        lemma_no_name_no_duplicate(refs.drop_first(), t);
    }
}

/// When several reference files match the target, the one reported is the
/// first match in reference-list order: no scoring, no better match.
pub proof fn lemma_first_match_wins(refs: Seq<FileEntryV>, t: FileEntryV, i: int)
    requires
        0 <= i < refs.len(),
        entry_matches(refs[i], t),
        forall|j: int| 0 <= j < i ==> !entry_matches(#[trigger] refs[j], t),
    ensures
        spec_find_duplicate(refs, t) == Some(refs[i].path),
    decreases i,
{
    if i > 0 {
        assert(forall|j: int| 0 <= j < refs.drop_first().len()
            ==> #[trigger] refs.drop_first()[j] == refs[j + 1]);
        lemma_first_match_wins(refs.drop_first(), t, i - 1);
    }
}

/// The reference files sharing one base name, in reference-list order.
pub struct NameGroup {
    pub name: Vec<u8>,
    pub members: Vec<FileEntry>,
}

/// The reference index: reference files grouped by base name. `source` is
/// the reference list the index was built from; every contract speaks of
/// that list, the grouping is only the lookup structure.
pub struct ReferenceData {
    pub groups: Vec<NameGroup>,
    pub source: Ghost<Seq<FileEntryV>>,
}

/// Some group in `groups` bears the name `n`.
pub open spec fn groups_have(groups: Seq<NameGroup>, n: Seq<u8>) -> bool {
    exists|g: int| 0 <= g < groups.len() && (#[trigger] groups[g]).name@ == n
}

fn find_group(groups: &Vec<NameGroup>, name: &Vec<u8>) -> (r: Option<usize>)
    ensures
        r matches Some(g) ==> g < groups@.len() && groups@[g as int].name@ == name@,
        r is None ==> forall|g: int| 0 <= g < groups@.len()
            ==> (#[trigger] groups@[g]).name@ != name@,
{
    let n = groups.len();
    for g in 0..n
        invariant
            n == groups@.len(),
            forall|k: int| 0 <= k < g ==> (#[trigger] groups@[k]).name@ != name@,
    {
        if bytes_equal(&groups[g].name, name) {
            return Some(g);
        }
    }
    None
}

#[verifier::loop_isolation(false)]
fn collect_named(paths: &Vec<FileEntry>, name: &Vec<u8>) -> (r: Vec<FileEntry>)
    requires
        forall|i: int| 0 <= i < paths@.len() ==> (#[trigger] paths@[i])@.path.len() > 0,
    ensures
        views_of(r@) == by_name(views_of(paths@), name@),
{
    let ghost src = views_of(paths@);
    let mut r: Vec<FileEntry> = Vec::new();
    proof {
        assert(src.take(0) =~= Seq::<FileEntryV>::empty());
    }
    for j in 0..paths.len()
        invariant
            views_of(r@) == by_name(src.take(j as int), name@),
    {
        let ghost r_before = r@;
        if bytes_equal(paths[j].path.base_name(), name) {
            r.push(clone_file_entry(&paths[j]));
        }
        proof {
            assert(src.take(j + 1) =~= src.take(j as int).push(src[j as int]));
            lemma_by_name_push(src.take(j as int), src[j as int], name@);
            assert(src[j as int] == paths@[j as int]@);
            if base_name(src[j as int].path) == name@ {
                assert(views_of(r@) =~= views_of(r_before).push(paths@[j as int]@));
            }
        }
    }
    proof {
        assert(src.take(src.len() as int) =~= src);
    }
    r
}

impl ReferenceData {
    /// The index is sound and complete for its source list: group names
    /// are distinct, each group holds exactly the source entries bearing
    /// its name in source order, and every source entry's name has a
    /// group.
    pub open spec fn wf(self) -> bool {
        &&& forall|i: int| 0 <= i < self.source@.len()
            ==> (#[trigger] self.source@[i]).path.len() > 0
        &&& forall|x: int, y: int| 0 <= x < y < self.groups@.len()
            ==> self.groups@[x].name@ != self.groups@[y].name@
        &&& forall|g: int| 0 <= g < self.groups@.len()
            ==> views_of((#[trigger] self.groups@[g]).members@)
                == by_name(self.source@, self.groups@[g].name@)
        &&& forall|i: int| 0 <= i < self.source@.len()
            ==> self.has_group(base_name((#[trigger] self.source@[i]).path))
    }

    /// Some group bears the name `n`.
    pub open spec fn has_group(self, n: Seq<u8>) -> bool {
        groups_have(self.groups@, n)
    }

    /// Builds the index over `paths`. Every path must have a base name;
    /// the scanner only produces such paths.
    #[verifier::loop_isolation(false)]
    pub fn new(paths: Vec<FileEntry>) -> (r: ReferenceData)
        requires
            forall|i: int| 0 <= i < paths@.len() ==> (#[trigger] paths@[i])@.path.len() > 0,
        ensures
            r.wf(),
            r.source@ == views_of(paths@),
    {
        let ghost src = views_of(paths@);
        let mut groups: Vec<NameGroup> = Vec::new();
        for i in 0..paths.len()
            invariant
                forall|x: int, y: int| 0 <= x < y < groups@.len()
                    ==> groups@[x].name@ != groups@[y].name@,
                forall|g: int| 0 <= g < groups@.len()
                    ==> views_of((#[trigger] groups@[g]).members@)
                        == by_name(src, groups@[g].name@),
                forall|k: int| 0 <= k < i
                    ==> groups_have(groups@, base_name((#[trigger] src[k]).path)),
        {
            let name = paths[i].path.base_name();
            proof {
                assert(src[i as int] == paths@[i as int]@);
            }
            match find_group(&groups, name) {
                Some(g) => {
                    proof {
                        assert(groups@[g as int].name@ == base_name(src[i as int].path));
                        assert(groups_have(groups@, base_name(src[i as int].path)));
                    }
                }
                None => {
                    let members = collect_named(&paths, name);
                    let ghost before = groups@;
                    groups.push(NameGroup { name: clone_bytes(name), members });
                    proof {
                        assert(forall|k: int| 0 <= k < before.len()
                            ==> #[trigger] groups@[k] == before[k]);
                        assert(groups@[before.len() as int].name@
                            == base_name(src[i as int].path));
                        assert(groups_have(groups@, base_name(src[i as int].path)));
                        assert forall|k: int| 0 <= k < i implies groups_have(
                            groups@,
                            base_name((#[trigger] src[k]).path),
                        ) by {
                            let n = base_name(src[k].path);
                            let g0 = choose|g: int| 0 <= g < before.len()
                                && (#[trigger] before[g]).name@ == n;
                            assert(groups@[g0].name@ == n);
                        }
                    }
                }
            }
        }
        ReferenceData { groups, source: Ghost(src) }
    }

    /// Looks `file` up by base name and compares content against each
    /// same-named reference candidate in reference-list order, stopping at
    /// the first match: exactly `spec_find_duplicate` over the source
    /// list.
    #[verifier::loop_isolation(false)]
    pub fn find_duplicate(&self, file: &FileEntry) -> (r: Option<FilePath>)
        requires
            self.wf(),
            file@.path.len() > 0,
        ensures
            r matches Some(p) ==> spec_find_duplicate(self.source@, file@) == Some(p@),
            r is None ==> spec_find_duplicate(self.source@, file@) is None,
    {
        let name = file.path.base_name();
        proof {
            lemma_by_name_find(self.source@, file@);
        }
        match find_group(&self.groups, name) {
            None => {
                proof {
                    assert(forall|i: int| 0 <= i < self.source@.len()
                        ==> base_name((#[trigger] self.source@[i]).path) != name@);
                    lemma_by_name_empty(self.source@, name@);
                }
                None
            }
            Some(g) => {
                let grp = &self.groups[g];
                let ghost ms = views_of(grp.members@);
                proof {
                    assert(ms == by_name(self.source@, base_name(file@.path)));
                }
                let n = grp.members.len();
                for j in 0..n
                    invariant
                        forall|k: int| 0 <= k < j ==> (#[trigger] ms[k]).content != file@.content,
                {
                    if compare_content(&grp.members[j].content, &file.content) {
                        let p = clone_path(&grp.members[j].path);
                        proof {
                            assert(ms[j as int].content == file@.content);
                            lemma_first_content_at(ms, file@.content, j as int);
                        }
                        return Some(p);
                    }
                    proof {
                        assert(ms[j as int].content != file@.content);
                    }
                }
                proof {
                    lemma_first_content_none(ms, file@.content);
                }
                None
            }
        }
    }
}

} // verus!
