use vstd::prelude::*;
use crate::text::{chars_of, strings_view, contains_string, same_text};
use crate::source_text::{lines_of, lines, trim_text, trim, string_of};

verus! {

// ── Imports of a source file ─────────────────────────────────────────────────

/// `s` without its trailing `;`s.
pub open spec fn strip_semicolons(s: Seq<char>) -> Seq<char>
    decreases s.len(),
{
    if s.len() > 0 && s.last() == ';' { strip_semicolons(s.drop_last()) } else { s }
}

/// The imported name on a line `import name;`, if the line is one.
pub open spec fn import_on_line(line: Seq<char>) -> Option<Seq<char>> {
    let t = trim_text(line);
    if t.len() >= 7 && t.subrange(0, 7) == "import "@ {
        Some(trim_text(strip_semicolons(t.skip(7))))
    } else {
        None
    }
}

/// The names imported by the lines `ls`, in order.
pub open spec fn imports_of(ls: Seq<Seq<char>>) -> Seq<Seq<char>>
    decreases ls.len(),
{
    if ls.len() == 0 {
        Seq::empty()
    } else {
        let rest = imports_of(ls.drop_last());
        match import_on_line(ls.last()) {
            Some(n) => rest.push(n),
            None => rest,
        }
    }
}

/// The names a source file imports: each line that, trimmed, starts with
/// `import ` gives the rest without trailing `;`s, trimmed.
pub fn import_names(source: &str) -> (r: Vec<String>)
    ensures
        strings_view(r@) == imports_of(lines_of(source@)),
{
    let cs = chars_of(source);
    let ls = lines(&cs);
    let mut out: Vec<String> = Vec::new();
    let mut i: usize = 0;
    while i < ls.len()
        invariant
            strings_view(ls@) == lines_of(source@),
            i <= ls@.len(),
            strings_view(out@) == imports_of(lines_of(source@).subrange(0, i as int)),
        decreases ls@.len() - i,
    {
        let line = chars_of(ls[i].as_str());
        let t = chars_of(trim(&line).as_str());
        let ghost o = out@;
        let ghost prefix = lines_of(source@).subrange(0, i + 1);
        proof {
            assert(prefix.drop_last() =~= lines_of(source@).subrange(0, i as int));
            assert(prefix.last() == line@);
        }
        let head = chars_of("import ");
        let mut is_import = t.len() >= 7;
        let mut k: usize = 0;
        while is_import && k < 7
            invariant
                k <= 7,
                head@ == "import "@,
                is_import ==> t@.len() >= 7,
                is_import ==> forall|j: int| 0 <= j < k ==> t@[j] == head@[j],
                !is_import ==> (t@.len() < 7 || t@.subrange(0, 7) != "import "@),
            decreases 7 - k,
        {
            proof { reveal_strlit("import "); }
            if t[k] != head[k] {
                proof { assert(t@.subrange(0, 7)[k as int] != head@[k as int]); }
                is_import = false;
            }
            k = k + 1;
        }
        if is_import {
            proof {
                reveal_strlit("import ");
                assert(t@.subrange(0, 7) =~= "import "@);
            }
            let mut e = t.len();
            while e > 7 && t[e - 1] == ';'
                invariant
                    7 <= e <= t@.len(),
                    strip_semicolons(t@.skip(7)) == strip_semicolons(t@.subrange(7, e as int)),
                decreases e,
            {
                proof { assert(t@.subrange(7, e as int).drop_last() =~= t@.subrange(7, e - 1)); }
                e = e - 1;
            }
            proof {
                assert(t@.skip(7) =~= t@.subrange(7, t@.len() as int));
                assert(strip_semicolons(t@.subrange(7, e as int)) == t@.subrange(7, e as int));
            }
            let rest = chars_of(string_of(&t, 7, e).as_str());
            let name = trim(&rest);
            out.push(name);
            proof {
                assert(import_on_line(line@) == Some(name@));
                assert(strings_view(out@) =~= strings_view(o).push(name@));
            }
        } else {
            proof { assert(import_on_line(line@) is None); }
        }
        i = i + 1;
    }
    proof { assert(lines_of(source@).subrange(0, ls@.len() as int) =~= lines_of(source@)); }
    out
}

// ── Walking the imports ──────────────────────────────────────────────────────

/// A source file and the files it imports.
#[derive(Debug, Clone)]
pub struct Module {
    pub path: String,
    pub imports: Vec<String>,
}

/// No two modules of `ms` were read from the same path.
pub open spec fn paths_distinct(ms: Seq<Module>) -> bool {
    forall|i: int, j: int| 0 <= i < j < ms.len() ==> (#[trigger] ms[i]).path@ != (#[trigger] ms[j]).path@
}

/// Whether `k` is the first place in `ms` of a module read from `p`.
pub open spec fn first_at(ms: Seq<Module>, p: Seq<char>, k: int) -> bool {
    0 <= k < ms.len() && ms[k].path@ == p && forall|j: int| 0 <= j < k ==> (#[trigger] ms[j]).path@ != p
}

/// Where in `ms` the module read from `p` stands, if it is there.
pub open spec fn module_at(ms: Seq<Module>, p: Seq<char>) -> Option<int> {
    if exists|k: int| #[trigger] first_at(ms, p, k) {
        Some(choose|k: int| #[trigger] first_at(ms, p, k))
    } else {
        None
    }
}

/// The files reached from a root file through imports, each visited once;
/// each path has one module.
pub struct SourceDiscovery {
    visited: Vec<String>,
    modules: Vec<Module>,
}

impl SourceDiscovery {
    /// The files visited so far.
    pub closed spec fn visited(&self) -> Set<Seq<char>> {
        strings_view(self.visited@).to_set()
    }

    /// The modules recorded so far, in order.
    pub closed spec fn recorded(&self) -> Seq<Module> {
        self.modules@
    }

    pub fn new() -> (d: Self)
        ensures
            d.visited() == Set::<Seq<char>>::empty(),
            d.recorded().len() == 0,
            paths_distinct(d.recorded()),
    {
        let d = SourceDiscovery { visited: Vec::new(), modules: Vec::new() };
        proof { assert(strings_view(d.visited@).to_set() =~= Set::<Seq<char>>::empty()); }
        d
    }

    /// Marks `path` visited; `true` when it was not visited before (so its
    /// file is to be read now), `false` when it was.
    pub fn start_visit(&mut self, path: &str) -> (fresh: bool)
        ensures
            fresh == !old(self).visited().contains(path@),
            final(self).visited() == old(self).visited().insert(path@),
            final(self).recorded() == old(self).recorded(),
    {
        if contains_string(&self.visited, path) {
            proof {
                assert(strings_view(self.visited@).to_set().contains(path@));
                assert(self.visited().insert(path@) =~= self.visited());
            }
            return false;
        }
        let ghost before = strings_view(self.visited@);
        self.visited.push(String::from_str(path));
        proof {
            assert(strings_view(self.visited@) =~= before.push(path@));
            before.lemma_push_to_set_commute(path@);
        }
        true
    }

    /// Records the module read from `path` and the files it imports, in
    /// place of the one recorded for that path before, if any.
    pub fn add_module(&mut self, path: String, imports: Vec<String>)
        ensures
            final(self).visited() == old(self).visited(),
            paths_distinct(old(self).recorded()) ==> paths_distinct(final(self).recorded()),
            match module_at(old(self).recorded(), path@) {
                Some(k) => final(self).recorded() == old(self).recorded().update(k, Module { path, imports }),
                None => final(self).recorded() == old(self).recorded().push(Module { path, imports }),
            },
    {
        let ghost ms = self.modules@;
        let mut i: usize = 0;
        while i < self.modules.len()
            invariant
                i <= ms.len(),
                self.modules@ == ms,
                ms == old(self).modules@,
                self.visited@ == old(self).visited@,
                forall|j: int| 0 <= j < i ==> (#[trigger] ms[j]).path@ != path@,
            decreases ms.len() - i,
        {
            if same_text(self.modules[i].path.as_str(), path.as_str()) {
                proof {
                    assert(first_at(ms, path@, i as int));
                    let k = choose|k: int| #[trigger] first_at(ms, path@, k);
                    if k < i { assert(ms[k].path@ != path@); }
                    if k > i { assert(ms[i as int].path@ != path@); }
                    assert(module_at(ms, path@) == Some(i as int));
                }
                let ghost m = Module { path, imports };
                self.modules.set(i, Module { path, imports });
                proof {
                    assert(self.modules@ == ms.update(i as int, m));
                    if paths_distinct(ms) {
                        assert forall|a: int, b: int| 0 <= a < b < self.modules@.len()
                            implies (#[trigger] self.modules@[a]).path@ != (#[trigger] self.modules@[b]).path@ by {
                            if a == i {
                                assert(ms[i as int].path@ != ms[b].path@);
                                assert(self.modules@[b] == ms[b]);
                            } else if b == i {
                                assert(ms[a].path@ != path@);
                                assert(self.modules@[a] == ms[a]);
                            } else {
                                assert(ms[a].path@ != ms[b].path@);
                                assert(self.modules@[a] == ms[a]);
                                assert(self.modules@[b] == ms[b]);
                            }
                        }
                    }
                }
                return;
            }
            i = i + 1;
        }
        let ghost m = Module { path, imports };
        self.modules.push(Module { path, imports });
        proof {
            assert(!exists|k: int| #[trigger] first_at(ms, path@, k));
            if paths_distinct(ms) {
                assert forall|a: int, b: int| 0 <= a < b < self.modules@.len()
                    implies (#[trigger] self.modules@[a]).path@ != (#[trigger] self.modules@[b]).path@ by {
                    if b < ms.len() { assert(ms[a].path@ != ms[b].path@); } else { assert(self.modules@[a] == ms[a]); }
                }
            }
        }
    }

    /// The modules found, in the order they were read.
    pub fn modules(self) -> (ms: Vec<Module>)
        ensures
            ms@ == self.recorded(),
    {
        self.modules
    }
}

} // verus!
