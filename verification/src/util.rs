//! Path strings and the directory walk.
//!
//! Paths are plain character strings.  The walker keeps the explicit list of
//! directories still to visit: the caller repeatedly takes one directory,
//! lists it (the one I/O step, outside this library), and hands the listing
//! back.  A listing that fails costs only the directory that failed; every
//! other pending directory is still visited.

use vstd::prelude::*;

verus! {

/// The position of the last `/` in `p`, or -1 if there is none.
pub open spec fn last_sep(p: Seq<char>) -> int
    decreases p.len(),
{
    if p.len() == 0 {
        -1
    } else if p.last() == '/' {
        p.len() - 1
    } else {
        last_sep(p.drop_last())
    }
}

/// The base name of a path: everything after its last `/`, or the whole
/// path if it has none; nothing when that part is empty.
pub open spec fn base_name_spec(p: Seq<char>) -> Option<Seq<char>> {
    if last_sep(p) + 1 < p.len() {
        Some(p.skip(last_sep(p) + 1))
    } else {
        None
    }
}

/// The fixed sentinel a report falls back to when the input file's name
/// cannot be determined.
pub open spec fn sentinel_name() -> Seq<char> {
    seq!['F', 'A', 'I', 'L', '.', 't', 'x', 't']
}

/// The report path an input file maps to: the output directory, a `/`, and
/// the input file's base name (or the sentinel when it has none).
pub open spec fn report_path_spec(dir: Seq<char>, path: Seq<char>) -> Seq<char> {
    dir + seq!['/'] + match base_name_spec(path) {
        Some(n) => n,
        None => sentinel_name(),
    }
}

/// The position of the last `.` in a name, or -1 if there is none.
pub open spec fn last_dot(n: Seq<char>) -> int
    decreases n.len(),
{
    if n.len() == 0 {
        -1
    } else if n.last() == '.' {
        n.len() - 1
    } else {
        last_dot(n.drop_last())
    }
}

/// Whether a path names a `.csv` file: its base name has an extension (a
/// `.` after its first character) and that extension is exactly `csv`.
pub open spec fn has_csv_extension_spec(p: Seq<char>) -> bool {
    base_name_spec(p) matches Some(n) && last_dot(n) > 0 && n.skip(last_dot(n) + 1) =~= seq![
        'c',
        's',
        'v',
    ]
}

/// Finds the base name of `path`, if it has a non-empty one.
pub fn base_name_of(path: &Vec<char>) -> (r: Option<Vec<char>>)
    ensures
        r is Some <==> base_name_spec(path@) is Some,
        r matches Some(n) ==> Some(n@) == base_name_spec(path@),
{
    let mut cut: usize = 0;
    let mut i: usize = 0;
    proof {
        assert(path@.take(0) =~= Seq::<char>::empty());
    }
    while i < path.len()
        invariant
            cut <= i <= path.len(),
            cut == last_sep(path@.take(i as int)) + 1,
        decreases path.len() - i,
    {
        proof {
            assert(path@.take(i + 1).drop_last() =~= path@.take(i as int));
            assert(path@.take(i + 1).last() == path@[i as int]);
        }
        if path[i] == '/' {
            cut = i + 1;
        }
        i = i + 1;
    }
    proof {
        assert(path@.take(i as int) =~= path@);
        assert(cut == last_sep(path@) + 1);
    }
    if cut == path.len() {
        return None;
    }
    let mut name: Vec<char> = Vec::new();
    let mut k: usize = cut;
    while k < path.len()
        invariant
            cut <= k <= path.len(),
            name@ == path@.subrange(cut as int, k as int),
        decreases path.len() - k,
    {
        proof {
            assert(path@.subrange(cut as int, k + 1) =~= path@.subrange(cut as int, k as int).push(
                path@[k as int],
            ));
        }
        name.push(path[k]);
        k = k + 1;
    }
    proof {
        assert(name@ =~= path@.skip(last_sep(path@) + 1));
    }
    Some(name)
}

/// Builds the report path for one input file under the output directory.
pub fn report_path_for(output_dir: &Vec<char>, input_path: &Vec<char>) -> (r: Vec<char>)
    ensures
        r@ == report_path_spec(output_dir@, input_path@),
{
    let mut out: Vec<char> = Vec::new();
    let mut i: usize = 0;
    while i < output_dir.len()
        invariant
            i <= output_dir.len(),
            out@ == output_dir@.take(i as int),
        decreases output_dir.len() - i,
    {
        proof {
            assert(output_dir@.take(i + 1) =~= output_dir@.take(i as int).push(
                output_dir@[i as int],
            ));
        }
        out.push(output_dir[i]);
        i = i + 1;
    }
    proof {
        assert(out@ =~= output_dir@);
    }
    out.push('/');
    match base_name_of(input_path) {
        Some(name) => {
            let ghost before = out@;
            let mut k: usize = 0;
            while k < name.len()
                invariant
                    k <= name.len(),
                    out@ == before + name@.take(k as int),
                decreases name.len() - k,
            {
                proof {
                    assert(before + name@.take(k + 1) =~= (before + name@.take(k as int)).push(
                        name@[k as int],
                    ));
                }
                out.push(name[k]);
                k = k + 1;
            }
            proof {
                assert(name@.take(k as int) =~= name@);
                assert(out@ =~= report_path_spec(output_dir@, input_path@));
            }
        },
        None => {
            out.push('F');
            out.push('A');
            out.push('I');
            out.push('L');
            out.push('.');
            out.push('t');
            out.push('x');
            out.push('t');
            proof {
                assert(out@ =~= report_path_spec(output_dir@, input_path@));
            }
        },
    }
    out
}

/// Decides whether `path` names a `.csv` file.
pub fn has_csv_extension(path: &Vec<char>) -> (r: bool)
    ensures
        r == has_csv_extension_spec(path@),
{
    match base_name_of(path) {
        None => false,
        Some(name) => {
            let mut dot: usize = 0;
            let mut i: usize = 0;
            proof {
                assert(name@.take(0) =~= Seq::<char>::empty());
            }
            while i < name.len()
                invariant
                    dot <= i <= name.len(),
                    dot == last_dot(name@.take(i as int)) + 1,
                decreases name.len() - i,
            {
                proof {
                    assert(name@.take(i + 1).drop_last() =~= name@.take(i as int));
                    assert(name@.take(i + 1).last() == name@[i as int]);
                }
                if name[i] == '.' {
                    dot = i + 1;
                }
                i = i + 1;
            }
            proof {
                assert(name@.take(i as int) =~= name@);
                assert(dot == last_dot(name@) + 1);
            }
            if dot <= 1 {
                return false;
            }
            if name.len() - dot != 3 {
                proof {
                    assert(name@.skip(last_dot(name@) + 1).len() == name@.len() - dot);
                }
                return false;
            }
            let r = name[dot] == 'c' && name[dot + 1] == 's' && name[dot + 2] == 'v';
            proof {
                let ext = name@.skip(last_dot(name@) + 1);
                assert(ext.len() == 3);
                assert(ext[0] == name@[dot as int]);
                assert(ext[1] == name@[dot + 1]);
                assert(ext[2] == name@[dot + 2]);
                if r {
                    assert(ext =~= seq!['c', 's', 'v']);
                } else {
                    assert(!(ext =~= seq!['c', 's', 'v']));
                }
            }
            r
        },
    }
}

/// One entry of a directory listing: the entry's path, and whether it is
/// itself a directory to descend into.
pub struct WalkEntry {
    /// The entry's full path.
    pub path: Vec<char>,
    /// Whether the entry is a directory.
    pub is_dir: bool,
}

/// The paths of the directory entries of a listing, in listing order.
pub open spec fn dir_paths_of(entries: Seq<WalkEntry>) -> Seq<Seq<char>>
    decreases entries.len(),
{
    if entries.len() == 0 {
        Seq::empty()
    } else {
        dir_paths_of(entries.drop_last()) + if entries.last().is_dir {
            seq![entries.last().path@]
        } else {
            Seq::empty()
        }
    }
}

/// The paths of the non-directory entries of a listing, in listing order.
pub open spec fn file_paths_of(entries: Seq<WalkEntry>) -> Seq<Seq<char>>
    decreases entries.len(),
{
    if entries.len() == 0 {
        Seq::empty()
    } else {
        file_paths_of(entries.drop_last()) + if entries.last().is_dir {
            Seq::empty()
        } else {
            seq![entries.last().path@]
        }
    }
}

/// The views of a vector of paths.
pub open spec fn paths_view(ps: Seq<Vec<char>>) -> Seq<Seq<char>> {
    ps.map_values(|p: Vec<char>| p@)
}

/// The directory walk's state: the directories discovered but not yet
/// listed.  Taking a directory out and handing its listing back never
/// loses another pending directory, so a listing that fails costs only
/// the directory that failed.
pub struct DirWalker {
    /// Directories still to list.
    pending: Vec<Vec<char>>,
}

impl DirWalker {
    /// The pending directories, newest last.
    pub closed spec fn pending_view(&self) -> Seq<Seq<char>> {
        paths_view(self.pending@)
    }

    /// Starts a walk at `root`, which is the one pending directory.
    pub fn new(root: Vec<char>) -> (r: DirWalker)
        ensures
            r.pending_view() == seq![root@],
    {
        let mut pending: Vec<Vec<char>> = Vec::new();
        let ghost rv = root@;
        pending.push(root);
        let r = DirWalker { pending };
        proof {
            assert(r.pending_view() =~= seq![rv]);
        }
        r
    }

    /// Takes one pending directory out, if any is left.
    pub fn next_dir(&mut self) -> (r: Option<Vec<char>>)
        ensures
            old(self).pending_view().len() == 0 ==> r is None && final(self).pending_view()
                == old(self).pending_view(),
            old(self).pending_view().len() > 0 ==> (r matches Some(d) && d@ == old(
                self,
            ).pending_view().last() && final(self).pending_view() == old(
                self,
            ).pending_view().drop_last()),
    {
        let r = self.pending.pop();
        proof {
            if old(self).pending_view().len() > 0 {
                assert(self.pending_view() =~= old(self).pending_view().drop_last());
            }
        }
        r
    }

    /// Hands one directory's listing back: every directory entry joins the
    /// pending list, in listing order, and the file entries' paths are
    /// returned, in listing order.
    pub fn note_listing(&mut self, entries: Vec<WalkEntry>) -> (files: Vec<Vec<char>>)
        ensures
            final(self).pending_view() == old(self).pending_view() + dir_paths_of(entries@),
            paths_view(files@) == file_paths_of(entries@),
    {
        let mut files: Vec<Vec<char>> = Vec::new();
        let ghost all = entries@;
        let mut i: usize = 0;
        proof {
            assert(dir_paths_of(all.take(0)) =~= Seq::<Seq<char>>::empty());
            assert(file_paths_of(all.take(0)) =~= Seq::<Seq<char>>::empty());
            assert(self.pending_view() + dir_paths_of(all.take(0)) =~= self.pending_view());
            assert(paths_view(files@) =~= file_paths_of(all.take(0)));
        }
        while i < entries.len()
            invariant
                i <= entries.len(),
                entries@ == all,
                self.pending_view() == old(self).pending_view() + dir_paths_of(
                    all.take(i as int),
                ),
                paths_view(files@) == file_paths_of(all.take(i as int)),
            decreases entries.len() - i,
        {
            proof {
                assert(all.take(i + 1).drop_last() =~= all.take(i as int));
                assert(all.take(i + 1).last() == all[i as int]);
            }
            let entry: &WalkEntry = &entries[i];
            let path = entry.path.clone();
            proof {
                assert(path@ =~= all[i as int].path@);
            }
            if entry.is_dir {
                proof {
                    assert(paths_view(self.pending@.push(path)) =~= paths_view(self.pending@).push(
                        path@,
                    ));
                    assert((old(self).pending_view() + dir_paths_of(all.take(i as int))).push(
                        path@,
                    ) =~= old(self).pending_view() + dir_paths_of(all.take(i + 1)));
                    assert(file_paths_of(all.take(i + 1)) =~= file_paths_of(all.take(i as int)));
                }
                self.pending.push(path);
            } else {
                proof {
                    assert(paths_view(files@.push(path)) =~= paths_view(files@).push(path@));
                    assert(paths_view(files@).push(path@) =~= file_paths_of(all.take(i + 1)));
                    assert(dir_paths_of(all.take(i + 1)) =~= dir_paths_of(all.take(i as int)));
                }
                files.push(path);
            }
            i = i + 1;
        }
        proof {
            assert(all.take(i as int) =~= all);
        }
        files
    }
}

} // verus!
