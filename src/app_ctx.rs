use vstd::prelude::*;
use crate::schema::Graph;

verus! {

/// No two static file entries share a URL path.
pub open spec fn paths_distinct(v: Seq<(String, String)>) -> bool {
    forall|a: int, b: int| #![trigger v[a], v[b]] 0 <= a < b < v.len() ==> v[a].0@ != v[b].0@
}

/// How the program was started.
#[derive(PartialEq, Eq, Structural, Clone, Copy, Debug)]
pub enum Entrance {
    APP,
    CLI,
}

/// The runtime that hosts the program, with its version.
pub enum Program {
    Rust(String),
    NodeJS(String),
    Python(String),
}

/// The state of one running application, handed down explicitly: its
/// entrance and host program, its schema, whether callbacks are skipped,
/// and the static file directories it serves (URL path, directory).
pub struct AppCtx {
    pub entrance: Entrance,
    pub program: Program,
    pub graph: Graph,
    pub ignore_callbacks: bool,
    pub static_files: Vec<(String, String)>,
}

impl AppCtx {
    pub fn new(graph: Graph, program: Program) -> (r: AppCtx)
        ensures
            r.entrance == Entrance::APP,
            r.program == program,
            r.graph == graph,
            !r.ignore_callbacks,
            r.static_files@.len() == 0,
    {
        AppCtx { entrance: Entrance::APP, program, graph, ignore_callbacks: false, static_files: Vec::new() }
    }

    pub fn graph(&self) -> (r: &Graph)
        ensures
            *r == self.graph,
    {
        &self.graph
    }

    pub fn set_entrance(&mut self, entrance: Entrance)
        ensures
            *final(self) == (AppCtx { entrance, ..*old(self) }),
    {
        self.entrance = entrance;
    }

    pub fn entrance(&self) -> (r: Entrance)
        ensures
            r == self.entrance,
    {
        self.entrance
    }

    pub fn set_program(&mut self, program: Program)
        ensures
            *final(self) == (AppCtx { program, ..*old(self) }),
    {
        self.program = program;
    }

    pub fn program(&self) -> (r: &Program)
        ensures
            *r == self.program,
    {
        &self.program
    }

    pub fn set_ignore_callbacks(&mut self, value: bool)
        ensures
            *final(self) == (AppCtx { ignore_callbacks: value, ..*old(self) }),
    {
        self.ignore_callbacks = value;
    }

    pub fn ignore_callbacks(&self) -> (r: bool)
        ensures
            r == self.ignore_callbacks,
    {
        self.ignore_callbacks
    }

    /// Serves directory `map` under URL path `path`: the first entry for
    /// that path is replaced in place, or a new entry comes last. Other
    /// entries and settings stay as they are.
    pub fn insert_static_files(&mut self, path: &str, map: &str)
        ensures
            *old(self) == (AppCtx { static_files: old(self).static_files, ..*final(self) }),
            ({
                let o = old(self).static_files@;
                let f = final(self).static_files@;
                if exists|i: int| 0 <= i < o.len() && (#[trigger] o[i]).0@ == path@ {
                    exists|i: int|
                        0 <= i < o.len() && (#[trigger] o[i]).0@ == path@ && (forall|j: int| 0 <= j < i ==> (#[trigger] o[j]).0@ != path@)
                            && f.len() == o.len() && f[i].0@ == path@ && f[i].1@ == map@ && (forall|j: int|
                            0 <= j < o.len() && j != i ==> #[trigger] f[j] == o[j])
                } else {
                    &&& f.len() == o.len() + 1
                    &&& f.drop_last() == o
                    &&& f.last().0@ == path@
                    &&& f.last().1@ == map@
                }
            }),
            paths_distinct(old(self).static_files@) ==> paths_distinct(final(self).static_files@),
    {
        let mut i: usize = 0;
        while i < self.static_files.len()
            invariant
                0 <= i <= self.static_files@.len(),
                *self == *old(self),
                forall|j: int| 0 <= j < i ==> (#[trigger] self.static_files@[j]).0@ != path@,
            decreases self.static_files@.len() - i,
        {
            if crate::text::str_eq(self.static_files[i].0.as_str(), path) {
                let ghost o = self.static_files@;
                self.static_files.set(i, (String::from_str(path), String::from_str(map)));
                proof {
                    let f = self.static_files@;
                    assert(o[i as int].0@ == path@);
                    assert forall|j: int| 0 <= j < o.len() && j != i implies #[trigger] f[j] == o[j] by {}
                    if paths_distinct(o) {
                        assert forall|a: int, b: int| #![trigger f[a], f[b]] 0 <= a < b < f.len() implies f[a].0@ != f[b].0@ by {
                            if a == i {
                                assert(o[b].0@ != o[a].0@);
                            } else if b == i {
                                assert(o[a].0@ != o[b].0@);
                            } else {
                                assert(f[a] == o[a] && f[b] == o[b]);
                            }
                        }
                    }
                }
                return;
            }
            i = i + 1;
        }
        let ghost o = self.static_files@;
        self.static_files.push((String::from_str(path), String::from_str(map)));
        proof {
            let f = self.static_files@;
            assert(f.drop_last() =~= o);
            if paths_distinct(o) {
                assert forall|a: int, b: int| #![trigger f[a], f[b]] 0 <= a < b < f.len() implies f[a].0@ != f[b].0@ by {
                    assert(f[a] == o[a]);
                    if b < o.len() {
                        assert(f[b] == o[b]);
                    }
                }
            }
        }
    }

    pub fn static_files(&self) -> (r: &Vec<(String, String)>)
        ensures
            *r == self.static_files,
    {
        &self.static_files
    }
}

} // verus!
