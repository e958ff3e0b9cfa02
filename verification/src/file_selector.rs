//! Candidate-file selection over file metadata.
//!
//! Files are described by their name and last-modification time.  Given a
//! list sorted ascending by modification time and a time window, the selector
//! keeps every file whose modification time lies in the window, plus the
//! first file past the window's upper bound: that boundary file may still
//! contain lines written just before its own modification time.
use vstd::prelude::*;

verus! {

/// A directory entry reduced to what selection needs: the file's name and
/// its last-modification time in seconds since the Unix epoch.
#[derive(Debug, Clone)]
pub struct FileEntry {
    pub name: String,
    pub mtime: u64,
}

/// Mathematical image of a `FileEntry`.
pub ghost struct FileEntryView {
    pub name: Seq<char>,
    pub mtime: int,
}

impl View for FileEntry {
    type V = FileEntryView;

    open spec fn view(&self) -> FileEntryView {
        FileEntryView { name: self.name@, mtime: self.mtime as int }
    }
}

/// The views of a sequence of entries.
pub open spec fn entry_views(files: Seq<FileEntry>) -> Seq<FileEntryView> {
    files.map_values(|f: FileEntry| f@)
}

/// What one scan over the entry list selects: entries before the window are
/// skipped, the first entry past the window is kept and ends the scan, and
/// everything in the window is kept.
pub open spec fn select_spec(files: Seq<FileEntryView>, start: int, end: int) -> Seq<Seq<char>>
    decreases files.len(),
{
    if files.len() == 0 {
        Seq::empty()
    } else {
        let f = files[0];
        if f.mtime < start {
            select_spec(files.drop_first(), start, end)
        } else if f.mtime > end {
            seq![f.name]
        } else {
            seq![f.name] + select_spec(files.drop_first(), start, end)
        }
    }
}

/// The names in `selected`, as sequences of characters.
pub open spec fn name_views(selected: Seq<String>) -> Seq<Seq<char>> {
    selected.map_values(|s: String| s@)
}

/// Ascending order of modification time; ties leave the order open.
pub open spec fn sorted_by_mtime(files: Seq<FileEntryView>) -> bool {
    forall|i: int, j: int| 0 <= i < j < files.len() ==> files[i].mtime <= files[j].mtime
}

/// Sorts the entries ascending by modification time, keeping exactly the
/// given entries.
pub fn sort_files_by_mtime(files: &mut Vec<FileEntry>)
    ensures
        sorted_by_mtime(entry_views(final(files)@)),
        final(files)@.to_multiset() == old(files)@.to_multiset(),
{
    broadcast use vstd::seq_lib::group_to_multiset_ensures, vstd::multiset::group_multiset_axioms;

    let n: usize = files.len();
    if n <= 1 {
        return ;
    }
    let mut i: usize = 1;
    while i < n
        invariant
            n == files@.len(),
            1 <= i <= n,
            sorted_by_mtime(entry_views(files@).take(i as int)),
            files@.to_multiset() == old(files)@.to_multiset(),
        decreases n - i,
    {
        let key_mtime: u64 = files[i].mtime;
        let mut p: usize = 0;
        while p < i && files[p].mtime <= key_mtime
            invariant
                p <= i < n == files@.len(),
                forall|k: int| 0 <= k < p ==> entry_views(files@)[k].mtime <= key_mtime,
            decreases i - p,
        {
            proof {
                assert(entry_views(files@)[p as int] == files@[p as int]@);
            }
            p = p + 1;
        }
        if p < i {
            let ghost before = files@;
            let moved = files.remove(i);
            files.insert(p, moved);
            proof {
                let prev = entry_views(before);
                let now = entry_views(files@);
                assert(files@ =~= before.remove(i as int).insert(p as int, before[i as int]));
                // Where each old element now stands.
                assert forall|k: int| 0 <= k < p implies now[k] == prev[k] by {
                    assert(files@[k] == before.remove(i as int)[k]);
                    assert(before.remove(i as int)[k] == before[k]);
                }
                assert(now[p as int] == prev[i as int]) by {
                    assert(files@[p as int] == before[i as int]);
                }
                assert forall|k: int| p < k <= i implies now[k] == prev[k - 1] by {
                    assert(files@[k] == before.remove(i as int)[k - 1]);
                    assert(before.remove(i as int)[k - 1] == before[k - 1]);
                }
                // The sorted prefix of length i, element by element.
                assert forall|a: int, b: int| 0 <= a < b < i implies prev[a].mtime
                    <= prev[b].mtime by {
                    assert(prev.take(i as int)[a] == prev[a]);
                    assert(prev.take(i as int)[b] == prev[b]);
                }
                assert(prev[p as int].mtime > key_mtime);
                assert(key_mtime == prev[i as int].mtime);
                assert forall|a: int, b: int| 0 <= a < b <= i implies now[a].mtime
                    <= now[b].mtime by {
                    if b < p {
                    } else if b == p {
                        assert(prev[a as int].mtime <= key_mtime);
                    } else if a == p {
                        assert(now[b] == prev[b - 1]);
                        assert(prev[b - 1].mtime >= prev[p as int].mtime);
                    } else if a < p {
                        assert(now[b] == prev[b - 1]);
                    } else {
                        assert(now[a] == prev[a - 1]);
                        assert(now[b] == prev[b - 1]);
                    }
                }
                assert(sorted_by_mtime(now.take(i + 1))) by {
                    assert(forall|k: int| 0 <= k <= i ==> now.take(i + 1)[k] == now[k]);
                }
                // The entries are unchanged as a collection.
                assert(before.contains(before[i as int]));
                before.to_multiset_ensures();
                vstd::seq_lib::to_multiset_remove(before, i as int);
                vstd::seq_lib::to_multiset_insert(
                    before.remove(i as int),
                    p as int,
                    before[i as int],
                );
                assert(before.to_multiset().count(before[i as int]) > 0);
                assert(before.to_multiset().remove(before[i as int]).insert(before[i as int])
                    =~= before.to_multiset());
                assert(files@.to_multiset() =~= before.to_multiset());
            }
        } else {
            proof {
                let now = entry_views(files@);
                assert(forall|k: int| 0 <= k <= i ==> now.take(i + 1)[k] == now[k]);
                assert(forall|a: int, b: int|
                    0 <= a < b < i ==> now.take(i as int)[a] == now[a] && now.take(i as int)[b]
                        == now[b]);
                assert(now[i as int].mtime == key_mtime);
            }
        }
        i = i + 1;
    }
    proof {
        assert(entry_views(files@).take(n as int) =~= entry_views(files@));
    }
}

/// Selects the names of the files that may hold lines whose timestamps fall
/// in `[start, end]`, assuming each file's content timestamps are bounded
/// above by its modification time and that `all_files` is sorted ascending
/// by modification time.  On an unsorted list the result is still exactly
/// `select_spec`, which then has no useful reading.
pub fn select_candidate_files(all_files: &[FileEntry], start: u64, end: u64) -> (selected: Vec<
    String,
>)
    ensures
        name_views(selected@) == select_spec(entry_views(all_files@), start as int, end as int),
{
    let ghost all: Seq<FileEntryView> = entry_views(all_files@);
    let mut selected: Vec<String> = Vec::new();
    let n: usize = all_files.len();
    let mut i: usize = 0;
    let mut stopped: bool = false;
    proof {
        assert(all.skip(0) =~= all);
        assert(name_views(selected@) =~= Seq::<Seq<char>>::empty());
        assert(Seq::<Seq<char>>::empty() + select_spec(all, start as int, end as int)
            =~= select_spec(all, start as int, end as int));
    }
    while i < n && !stopped
        invariant
            n == all_files@.len(),
            i <= n,
            all == entry_views(all_files@),
            stopped ==> name_views(selected@) == select_spec(all, start as int, end as int),
            !stopped ==> select_spec(all, start as int, end as int) == name_views(selected@)
                + select_spec(all.skip(i as int), start as int, end as int),
        decreases n - i,
    {
        let file = &all_files[i];
        proof {
            assert(all.skip(i as int)[0] == all[i as int]);
            assert(all.skip(i as int).drop_first() =~= all.skip(i + 1));
        }
        if file.mtime < start {
            // Too old for the window: skip it.
        } else if file.mtime > end {
            // Boundary file just past the window: keep it and stop.
            let ghost prev = selected@;
            selected.push(file.name.clone());
            stopped = true;
            proof {
                assert(name_views(selected@) =~= name_views(prev) + seq![all[i as int].name]);
            }
        } else {
            // Modification time inside the window: keep it.
            let ghost prev = selected@;
            selected.push(file.name.clone());
            proof {
                assert(name_views(selected@) =~= name_views(prev) + seq![all[i as int].name]);
                assert(name_views(prev) + (seq![all[i as int].name] + select_spec(
                    all.skip(i + 1),
                    start as int,
                    end as int,
                )) =~= name_views(selected@) + select_spec(all.skip(i + 1), start as int, end as int));
            }
        }
        i = i + 1;
    }
    proof {
        if !stopped {
            assert(all.skip(n as int) =~= Seq::<FileEntryView>::empty());
            assert(name_views(selected@) + Seq::<Seq<char>>::empty() =~= name_views(selected@));
        }
    }
    selected
}

/// The names of a run of entries.
pub open spec fn names_of(files: Seq<FileEntryView>) -> Seq<Seq<char>> {
    files.map_values(|f: FileEntryView| f.name)
}

/// On a list sorted ascending by modification time, the selection is a
/// prefix-bounded contiguous run: it is the names of the entries from `lo`,
/// the first entry whose modification time reaches `start`; everything
/// before `lo` lies before the window; no selected entry lies before the
/// window; at most the last selected entry lies past its upper bound; and
/// every entry whose modification time lies in the window is selected.
pub proof fn lemma_select_contiguous_window(files: Seq<FileEntryView>, start: int, end: int) -> (lo:
    int)
    requires
        sorted_by_mtime(files),
    ensures
        0 <= lo <= files.len(),
        lo + select_spec(files, start, end).len() <= files.len(),
        select_spec(files, start, end) == names_of(
            files.subrange(lo, lo + select_spec(files, start, end).len()),
        ),
        forall|k: int| 0 <= k < lo ==> files[k].mtime < start,
        forall|k: int|
            lo <= k < lo + select_spec(files, start, end).len() ==> files[k].mtime >= start,
        forall|k: int|
            lo <= k < lo + select_spec(files, start, end).len() - 1 ==> files[k].mtime <= end,
        forall|k: int|
            0 <= k < files.len() && start <= (#[trigger] files[k]).mtime <= end ==> lo <= k < lo
                + select_spec(files, start, end).len(),
    decreases files.len(),
{
    let sel = select_spec(files, start, end);
    if files.len() == 0 {
        assert(sel =~= names_of(files.subrange(0, 0)));
        0
    } else {
        let f = files[0];
        let rest = files.drop_first();
        assert forall|a: int, b: int| 0 <= a < b < rest.len() implies #[trigger] rest[a].mtime
            <= #[trigger] rest[b].mtime by {
            assert(rest[a] == files[a + 1]);
            assert(rest[b] == files[b + 1]);
        }
        if f.mtime < start {
            let lo_r = lemma_select_contiguous_window(rest, start, end);
            let lo = lo_r + 1;
            let sel_r = select_spec(rest, start, end);
            assert(sel == sel_r);
            assert(sel =~= names_of(files.subrange(lo, lo + sel.len()))) by {
                assert(files.subrange(lo, lo + sel.len()) =~= rest.subrange(
                    lo_r,
                    lo_r + sel_r.len(),
                ));
            }
            assert(forall|k: int| 1 <= k < files.len() ==> files[k] == rest[k - 1]);
            lo
        } else if f.mtime > end {
            assert(sel == seq![f.name]);
            assert(sel =~= names_of(files.subrange(0, 1)));
            // Everything after the boundary file lies past the window too.
            assert(forall|k: int| 1 <= k < files.len() ==> files[k].mtime >= f.mtime);
            0
        } else {
            let lo_r = lemma_select_contiguous_window(rest, start, end);
            let sel_r = select_spec(rest, start, end);
            // No entry of the sorted tail lies before the window, so the
            // tail's run starts at its very first entry.
            assert(forall|k: int| 0 <= k < rest.len() ==> rest[k].mtime >= f.mtime);
            assert(lo_r == 0) by {
                if lo_r > 0 {
                    assert(rest[0].mtime < start);
                }
            }
            assert(sel == seq![f.name] + sel_r);
            assert(sel.len() == 1 + sel_r.len());
            assert(sel =~= names_of(files.subrange(0, 1 + sel_r.len() as int))) by {
                assert(forall|k: int| 1 <= k < files.len() ==> files[k] == rest[k - 1]);
                assert(sel_r =~= names_of(rest.subrange(0, sel_r.len() as int)));
                assert(forall|k: int|
                    0 <= k < sel_r.len() ==> #[trigger] sel_r[k] == rest[k].name);
            }
            assert(forall|k: int| 1 <= k < files.len() ==> files[k] == rest[k - 1]);
            0
        }
    }
}

} // verus!
