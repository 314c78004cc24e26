//! The lexically scoped environment.
//!
//! Frames live in one store and point to their parent by index, so a frame
//! handle is a plain index and closures can share frames freely.  A frame
//! created later always points to an earlier frame, which keeps the parent
//! chain acyclic and gives lookup its termination measure.
//!
//! The store also carries the interpreter's output lines (what `display`
//! and `debug` print) and the stamp counter for lambda identity, so the
//! whole interpreter state has one ghost model, [`StateV`].

use vstd::prelude::*;

use crate::builtins::{builtin_name, Builtin};
use crate::data::{chars_eq, clone_chars, clone_value, val_valid, Val, Value};
use crate::value::chars_of;

verus! {

/// One environment frame: an association list of bindings and the handle of
/// the parent frame (`None` for the root frame).
pub struct Frame {
    pub entries: Vec<(Vec<char>, Value)>,
    pub parent: Option<usize>,
}

/// The interpreter state: the frame store, the lambda stamp counter, and
/// the output lines printed so far.
pub struct Scope {
    pub frames: Vec<Frame>,
    pub next_id: u64,
    pub out: Vec<Vec<char>>,
}

/// Ghost model of a frame: a finite map from names to values, plus the
/// parent handle.
#[verifier::ext_equal]
pub struct FrameV {
    pub map: Map<Seq<char>, Val>,
    pub parent: Option<int>,
}

/// Ghost model of the interpreter state.
#[verifier::ext_equal]
pub struct StateV {
    pub frames: Seq<FrameV>,
    pub next_id: u64,
    pub out: Seq<Seq<char>>,
}

/// The map held by an association list: a later entry for the same name
/// would win, but well-formed frames have distinct names.
pub open spec fn entries_map(s: Seq<(Vec<char>, Value)>) -> Map<Seq<char>, Val>
    decreases s.len(),
{
    if s.len() == 0 {
        Map::empty()
    } else {
        entries_map(s.drop_last()).insert(s.last().0@, s.last().1@)
    }
}

/// The names of an association list are pairwise distinct.
pub open spec fn keys_unique(s: Seq<(Vec<char>, Value)>) -> bool {
    forall|i: int, j: int| 0 <= i < j < s.len() ==> s[i].0@ != s[j].0@
}

impl View for Frame {
    type V = FrameV;

    open spec fn view(&self) -> FrameV {
        FrameV {
            map: entries_map(self.entries@),
            parent: match self.parent {
                Some(p) => Some(p as int),
                None => None,
            },
        }
    }
}

impl View for Scope {
    type V = StateV;

    open spec fn view(&self) -> StateV {
        StateV {
            frames: Seq::new(self.frames@.len(), |i: int| self.frames@[i]@),
            next_id: self.next_id,
            out: Seq::new(self.out@.len(), |i: int| self.out@[i]@),
        }
    }
}

/// A parent handle points strictly backwards in the store.
pub open spec fn parent_ok(p: Option<int>, i: int) -> bool {
    match p {
        Some(p) => 0 <= p < i,
        None => true,
    }
}

/// Every frame's parent handle points strictly backwards: the parent chain
/// is acyclic and always reaches a root.
pub open spec fn parents_ok(frames: Seq<FrameV>) -> bool {
    forall|i: int| 0 <= i < frames.len() ==> parent_ok(#[trigger] frames[i].parent, i)
}

/// Every value bound in any frame is well formed for the store.
pub open spec fn bindings_ok(st: StateV) -> bool {
    forall|i: int, name: Seq<char>|
        0 <= i < st.frames.len() && #[trigger] st.frames[i].map.dom().contains(name) ==> val_valid(
            #[trigger] st.frames[i].map[name],
            st.frames.len(),
        )
}

/// Well-formedness of the interpreter state.
pub open spec fn st_wf(st: StateV) -> bool {
    &&& st.frames.len() >= 1
    &&& parents_ok(st.frames)
    &&& bindings_ok(st)
}

/// Looks a name up in the frame chain starting at `env`.
pub open spec fn lookup(st: StateV, env: int, name: Seq<char>) -> Option<Val>
    decreases env,
    when 0 <= env < st.frames.len() && parents_ok(st.frames)
{
    let fr = st.frames[env];
    if fr.map.dom().contains(name) {
        Some(fr.map[name])
    } else {
        match fr.parent {
            Some(p) => lookup(st, p, name),
            None => None,
        }
    }
}

/// Installs a binding in frame `env` itself.
pub open spec fn decl_at(st: StateV, env: int, name: Seq<char>, v: Val) -> StateV {
    StateV {
        frames: st.frames.update(
            env,
            FrameV { map: st.frames[env].map.insert(name, v), parent: st.frames[env].parent },
        ),
        ..st
    }
}

/// Reassigns a name at its defining frame: walks the chain from `env`, and
/// updates the first frame that binds the name; when no frame in the chain
/// does, declares the binding in the root of the chain.
pub open spec fn set_at(st: StateV, env: int, name: Seq<char>, v: Val) -> StateV
    decreases env,
    when 0 <= env < st.frames.len() && parents_ok(st.frames)
{
    let fr = st.frames[env];
    if fr.map.dom().contains(name) {
        decl_at(st, env, name, v)
    } else {
        match fr.parent {
            Some(p) => set_at(st, p, name, v),
            None => decl_at(st, env, name, v),
        }
    }
}

/// A successful lookup in a well-formed state yields a well-formed value.
pub proof fn lemma_lookup_valid(st: StateV, env: int, name: Seq<char>)
    requires
        st_wf(st),
        0 <= env < st.frames.len(),
        lookup(st, env, name) is Some,
    ensures
        val_valid(lookup(st, env, name)->Some_0, st.frames.len() as nat),
    decreases env,
{
    let fr = st.frames[env];
    if fr.map.dom().contains(name) {
    } else {
        match fr.parent {
            Some(p) => {
                lemma_lookup_valid(st, p, name);
            },
            None => {},
        }
    }
}

/// `decl_at` preserves well-formedness when the new value is well formed.
pub proof fn lemma_decl_at_wf(st: StateV, env: int, name: Seq<char>, v: Val)
    requires
        st_wf(st),
        0 <= env < st.frames.len(),
        val_valid(v, st.frames.len() as nat),
    ensures
        st_wf(decl_at(st, env, name, v)),
        decl_at(st, env, name, v).frames.len() == st.frames.len(),
        forall|i: int|
            0 <= i < st.frames.len() ==> #[trigger] decl_at(st, env, name, v).frames[i].parent
                == st.frames[i].parent,
{
    let st2 = decl_at(st, env, name, v);
    assert forall|i: int, n: Seq<char>|
        0 <= i < st2.frames.len() && #[trigger] st2.frames[i].map.dom().contains(n) implies
    val_valid(#[trigger] st2.frames[i].map[n], st2.frames.len()) by {
        if i == env && n == name {
        } else {
            assert(st.frames[i].map.dom().contains(n));
        }
    }
}

/// `set_at` preserves well-formedness when the new value is well formed.
pub proof fn lemma_set_at_wf(st: StateV, env: int, name: Seq<char>, v: Val)
    requires
        st_wf(st),
        0 <= env < st.frames.len(),
        val_valid(v, st.frames.len() as nat),
    ensures
        st_wf(set_at(st, env, name, v)),
        set_at(st, env, name, v).frames.len() == st.frames.len(),
        forall|i: int|
            0 <= i < st.frames.len() ==> #[trigger] set_at(st, env, name, v).frames[i].parent
                == st.frames[i].parent,
        set_at(st, env, name, v).next_id == st.next_id,
        set_at(st, env, name, v).out == st.out,
    decreases env,
{
    let fr = st.frames[env];
    if fr.map.dom().contains(name) {
        lemma_decl_at_wf(st, env, name, v);
    } else {
        match fr.parent {
            Some(p) => {
                lemma_set_at_wf(st, p, name, v);
            },
            None => {
                lemma_decl_at_wf(st, env, name, v);
            },
        }
    }
}

/// The association list realises its map: every entry is in the map with
/// its own value, and every name in the map has an entry.
proof fn lemma_entries_map(s: Seq<(Vec<char>, Value)>)
    requires
        keys_unique(s),
    ensures
        forall|i: int|
            0 <= i < s.len() ==> entries_map(s).dom().contains(#[trigger] s[i].0@) && entries_map(
                s,
            )[s[i].0@] == s[i].1@,
        forall|name: Seq<char>|
            entries_map(s).dom().contains(name) ==> exists|i: int|
                0 <= i < s.len() && #[trigger] s[i].0@ == name,
    decreases s.len(),
{
    if s.len() > 0 {
        let t = s.drop_last();
        assert(keys_unique(t)) by {
            assert(forall|i: int, j: int|
                0 <= i < j < t.len() ==> t[i].0@ == s[i].0@ && t[j].0@ == s[j].0@);
        }
        lemma_entries_map(t);
        assert forall|i: int| 0 <= i < s.len() implies entries_map(s).dom().contains(
            #[trigger] s[i].0@,
        ) && entries_map(s)[s[i].0@] == s[i].1@ by {
            if i < s.len() - 1 {
                assert(t[i] == s[i]);
                assert(s[i].0@ != s.last().0@);
            }
        }
        assert forall|name: Seq<char>| entries_map(s).dom().contains(name) implies exists|i: int|
            0 <= i < s.len() && #[trigger] s[i].0@ == name by {
            if name == s.last().0@ {
                assert(s[s.len() - 1].0@ == name);
            } else {
                assert(entries_map(t).dom().contains(name));
                let i = choose|i: int| 0 <= i < t.len() && #[trigger] t[i].0@ == name;
                assert(s[i].0@ == name);
            }
        }
    }
}

impl Frame {
    /// The frame's association list realises its map model.
    pub open spec fn wf(&self) -> bool {
        keys_unique(self.entries@)
    }
}

impl Scope {
    /// Well-formedness of the store: the model state is well formed and
    /// every frame's association list has distinct names.
    pub open spec fn wf(&self) -> bool {
        &&& st_wf(self@)
        &&& forall|i: int| 0 <= i < self.frames@.len() ==> (#[trigger] self.frames@[i]).wf()
    }

    /// A fresh store holding only an empty root frame.
    pub fn global() -> (r: Scope)
        ensures
            r.wf(),
            r@ == (StateV {
                frames: seq![FrameV { map: Map::empty(), parent: None }],
                next_id: 0,
                out: Seq::empty(),
            }),
    {
        let mut frames: Vec<Frame> = Vec::new();
        frames.push(Frame { entries: Vec::new(), parent: None });
        let r = Scope { frames, next_id: 0, out: Vec::new() };
        proof {
            assert(r@ =~~= StateV {
                frames: seq![FrameV { map: Map::empty(), parent: None }],
                next_id: 0,
                out: Seq::empty(),
            });
        }
        r
    }

    /// Appends a fresh empty frame whose parent is `parent` and returns its
    /// handle.
    pub fn local(&mut self, parent: usize) -> (h: usize)
        requires
            old(self).wf(),
            parent < old(self)@.frames.len(),
        ensures
            final(self).wf(),
            h == old(self)@.frames.len(),
            final(self)@ == (StateV {
                frames: old(self)@.frames + seq![
                    FrameV { map: Map::empty(), parent: Some(parent as int) },
                ],
                ..old(self)@
            }),
    {
        let h = self.frames.len();
        self.frames.push(Frame { entries: Vec::new(), parent: Some(parent) });
        proof {
            assert(self@ =~~= StateV {
                frames: old(self)@.frames + seq![
                    FrameV { map: Map::empty(), parent: Some(parent as int) },
                ],
                ..old(self)@
            });
            let st2 = self@;
            assert forall|i: int, n: Seq<char>|
                0 <= i < st2.frames.len() && #[trigger] st2.frames[i].map.dom().contains(n) implies
            val_valid(#[trigger] st2.frames[i].map[n], st2.frames.len()) by {
                assert(i < old(self)@.frames.len());
                crate::data::lemma_val_valid_grow(
                    st2.frames[i].map[n],
                    old(self)@.frames.len() as nat,
                    st2.frames.len() as nat,
                );
            }
        }
        h
    }

    /// Finds the index of the entry binding `key` in frame `env`, if any.
    #[verifier::loop_isolation(false)]
    fn find_entry(&self, env: usize, key: &Vec<char>) -> (r: Option<usize>)
        requires
            self.wf(),
            env < self@.frames.len(),
        ensures
            match r {
                Some(i) => i < self.frames@[env as int].entries@.len()
                    && self.frames@[env as int].entries@[i as int].0@ == key@
                    && self@.frames[env as int].map.dom().contains(key@)
                    && self@.frames[env as int].map[key@] == self.frames@[env as int].entries@[i as int].1@,
                None => !self@.frames[env as int].map.dom().contains(key@),
            },
    {
        let entries = &self.frames[env].entries;
        proof {
            lemma_entries_map(entries@);
        }
        let mut i: usize = 0;
        while i < entries.len()
            invariant
                i <= entries.len(),
                keys_unique(entries@),
                forall|j: int|
                    0 <= j < entries@.len() ==> entries_map(entries@).dom().contains(
                        #[trigger] entries@[j].0@,
                    ) && entries_map(entries@)[entries@[j].0@] == entries@[j].1@,
                forall|name: Seq<char>|
                    entries_map(entries@).dom().contains(name) ==> exists|j: int|
                        0 <= j < entries@.len() && #[trigger] entries@[j].0@ == name,
                forall|j: int| 0 <= j < i ==> #[trigger] entries@[j].0@ != key@,
            decreases entries.len() - i,
        {
            if chars_eq(&entries[i].0, key) {
                proof {
                    assert(self@.frames[env as int] == self.frames@[env as int]@);
                    assert(self@.frames[env as int].map == entries_map(entries@));
                    assert(entries@[i as int].0@ == key@);
                }
                return Some(i);
            }
            i = i + 1;
        }
        None
    }

    /// Looks `key` up in the chain starting at `env`, returning a copy of
    /// the bound value, per [`lookup`].
    pub fn get(&self, env: usize, key: &Vec<char>) -> (r: Option<Value>)
        requires
            self.wf(),
            env < self@.frames.len(),
        ensures
            match r {
                Some(v) => lookup(self@, env as int, key@) == Some(v@) && val_valid(
                    v@,
                    self@.frames.len() as nat,
                ),
                None => lookup(self@, env as int, key@) is None,
            },
    {
        let mut cur: usize = env;
        loop
            invariant
                self.wf(),
                cur < self@.frames.len(),
                lookup(self@, env as int, key@) == lookup(self@, cur as int, key@),
            ensures
                cur < self@.frames.len(),
                self@.frames[cur as int].map.dom().contains(key@),
                lookup(self@, env as int, key@) == Some(self@.frames[cur as int].map[key@]),
            decreases cur,
        {
            match self.find_entry(cur, key) {
                Some(_) => {
                    break ;
                },
                None => {
                    match self.frames[cur].parent {
                        Some(p) => {
                            cur = p;
                        },
                        None => {
                            return None;
                        },
                    }
                },
            }
        }
        match self.find_entry(cur, key) {
            Some(i) => {
                let v = clone_value(&self.frames[cur].entries[i].1);
                proof {
                    lemma_lookup_valid(self@, env as int, key@);
                }
                Some(v)
            },
            None => {
                proof {
                    assert(false);
                }
                None
            },
        }
    }

    /// Installs `key -> val` in frame `env` itself, shadowing any outer
    /// binding of the same name, per [`decl_at`].
    pub fn decl(&mut self, env: usize, key: &Vec<char>, val: Value)
        requires
            old(self).wf(),
            env < old(self)@.frames.len(),
            val_valid(val@, old(self)@.frames.len() as nat),
        ensures
            final(self).wf(),
            final(self)@ == decl_at(old(self)@, env as int, key@, val@),
    {
        let ghost st0 = self@;
        let r = self.find_entry(env, key);
        let ghost val0 = val@;
        let fr = vstd::std_specs::vec::vec_index_mut(&mut self.frames, env);
        let ghost entries0 = fr.entries@;
        match r {
            Some(i) => {
                let k = clone_chars(key);
                let ghost x = (k, val);
                let e = vstd::std_specs::vec::vec_index_mut(&mut fr.entries, i);
                *e = (k, val);
                proof {
                    assert(fr.entries@ =~= entries0.update(i as int, x));
                    lemma_update_entry(entries0, i as int, x);
                    assert(keys_unique(fr.entries@));
                    assert(entries_map(fr.entries@) == entries_map(entries0).insert(key@, val0));
                }
            },
            None => {
                let k = clone_chars(key);
                let ghost x = (k, val);
                fr.entries.push((k, val));
                proof {
                    lemma_entries_map(entries0);
                    assert forall|j: int| 0 <= j < entries0.len() implies (
                    #[trigger] entries0[j].0@) != key@ by {
                        assert(entries_map(entries0).dom().contains(entries0[j].0@));
                    }
                    lemma_push_entry(entries0, x);
                    assert(keys_unique(fr.entries@));
                    assert(entries_map(fr.entries@) == entries_map(entries0).insert(key@, val0));
                }
            },
        }
        proof {
            assert(self@ =~~= decl_at(st0, env as int, key@, val0));
            lemma_decl_at_wf(st0, env as int, key@, val0);
            assert forall|i: int| 0 <= i < self.frames@.len() implies (
            #[trigger] self.frames@[i]).wf() by {
                if i != env {
                    assert(self.frames@[i] == old(self).frames@[i]);
                }
            }
        }
    }

    /// Reassigns `key` at its defining frame, per [`set_at`]: the first
    /// frame in the chain from `env` that binds `key` is updated; when none
    /// does, the binding is created in the root of the chain.
    pub fn set(&mut self, env: usize, key: &Vec<char>, val: Value)
        requires
            old(self).wf(),
            env < old(self)@.frames.len(),
            val_valid(val@, old(self)@.frames.len() as nat),
        ensures
            final(self).wf(),
            final(self)@ == set_at(old(self)@, env as int, key@, val@),
        decreases env,
    {
        let found = self.find_entry(env, key);
        if found.is_some() {
            self.decl(env, key, val);
        } else {
            match self.frames[env].parent {
                Some(p) => {
                    proof {
                        assert(parent_ok(self@.frames[env as int].parent, env as int));
                        assert(self@.frames[env as int].parent == Some(p as int));
                    }
                    self.set(p, key, val);
                },
                None => {
                    self.decl(env, key, val);
                },
            }
        }
    }

    /// Registers a builtin under its name in the root frame.
    pub fn set_builtin(&mut self, b: Builtin)
        requires
            old(self).wf(),
        ensures
            final(self).wf(),
            final(self)@ == decl_at(old(self)@, 0, builtin_name(b), Val::Builtin(b)),
    {
        let key = chars_of(b.name());
        self.decl(0, &key, Value::Builtin(b));
    }

    /// Declares the constants `nil`, `#t`/`true` and `#f`/`false` and
    /// registers every builtin of the catalogue in the root frame, per
    /// [`stdlib_map`].
    pub fn load_stdlib(&mut self)
        requires
            old(self).wf(),
        ensures
            final(self).wf(),
            final(self)@ == (StateV {
                frames: old(self)@.frames.update(
                    0,
                    FrameV {
                        map: stdlib_map(old(self)@.frames[0].map),
                        parent: old(self)@.frames[0].parent,
                    },
                ),
                ..old(self)@
            }),
    {
        let key = chars_of("nil");
        self.decl(0, &key, Value::Nil);
        let key = chars_of("#t");
        self.decl(0, &key, Value::Bool(true));
        let key = chars_of("true");
        self.decl(0, &key, Value::Bool(true));
        let key = chars_of("#f");
        self.decl(0, &key, Value::Bool(false));
        let key = chars_of("false");
        self.decl(0, &key, Value::Bool(false));
        crate::builtins::load_builtins(self);
        proof {
            assert(self@ =~~= StateV {
                frames: old(self)@.frames.update(
                    0,
                    FrameV {
                        map: stdlib_map(old(self)@.frames[0].map),
                        parent: old(self)@.frames[0].parent,
                    },
                ),
                ..old(self)@
            });
        }
    }

    /// Appends one printed line to the output.
    pub fn push_output(&mut self, line: Vec<char>)
        requires
            old(self).wf(),
        ensures
            final(self).wf(),
            final(self)@ == (StateV { out: old(self)@.out + seq![line@], ..old(self)@ }),
    {
        self.out.push(line);
        proof {
            assert(self@ =~~= StateV { out: old(self)@.out + seq![line@], ..old(self)@ });
        }
    }

    /// The number of lines printed so far.
    pub fn output_len(&self) -> (r: usize)
        ensures
            r == self@.out.len(),
    {
        self.out.len()
    }

    /// One printed line, as a string.
    pub fn output_line(&self, i: usize) -> (r: String)
        requires
            i < self@.out.len(),
        ensures
            r@ == self@.out[i as int],
    {
        crate::value::string_of(&self.out[i])
    }
}

/// The root-frame bindings of the standard library: the constants `nil`,
/// `#t`/`true` and `#f`/`false`, and every builtin under its name.
pub open spec fn stdlib_map(m: Map<Seq<char>, Val>) -> Map<Seq<char>, Val> {
    crate::builtins::builtins_map(
        m.insert("nil"@, Val::Nil).insert("#t"@, Val::Bool(true)).insert(
            "true"@,
            Val::Bool(true),
        ).insert("#f"@, Val::Bool(false)).insert("false"@, Val::Bool(false)),
    )
}

/// The standard library establishes the bindings that the evaluation laws
/// assume: in a state whose root frame carries [`stdlib_map`], looking up
/// the standard constants and the quote builtin from the root succeeds
/// with the documented values.
pub proof fn lemma_stdlib_lookups(st: StateV, m: Map<Seq<char>, Val>)
    requires
        st.frames.len() >= 1,
        parents_ok(st.frames),
        st.frames[0].map == stdlib_map(m),
    ensures
        lookup(st, 0, "nil"@) == Some(Val::Nil),
        lookup(st, 0, "#t"@) == Some(Val::Bool(true)),
        lookup(st, 0, "#f"@) == Some(Val::Bool(false)),
        lookup(st, 0, "true"@) == Some(Val::Bool(true)),
        lookup(st, 0, "false"@) == Some(Val::Bool(false)),
        lookup(st, 0, "quote"@) == Some(Val::Builtin(Builtin::Quote)),
{
    reveal_strlit("nil");
    reveal_strlit("#t");
    reveal_strlit("#f");
    reveal_strlit("true");
    reveal_strlit("false");
    reveal_strlit("quote");
    reveal_strlit("let");
    reveal_strlit("set");
    reveal_strlit("if");
    reveal_strlit("and");
    reveal_strlit("or");
    reveal_strlit("begin");
    reveal_strlit("lambda");
    reveal_strlit("funcall");
    reveal_strlit("apply");
    reveal_strlit("eval");
    reveal_strlit("map");
    reveal_strlit("fold");
    reveal_strlit("car");
    reveal_strlit("cdr");
    reveal_strlit("cons");
    reveal_strlit("list");
    reveal_strlit("not");
    reveal_strlit("+");
    reveal_strlit("-");
    reveal_strlit("*");
    reveal_strlit("/");
    reveal_strlit("equal");
    reveal_strlit("<");
    reveal_strlit(">");
    reveal_strlit("<=");
    reveal_strlit(">=");
    reveal_strlit("atom");
    reveal_strlit("typeof");
    reveal_strlit("display");
    reveal_strlit("debug");
    let sm = stdlib_map(m);
    // Every pair of registered names already differs in its length or in
    // one of its first two characters; pinning those facts lets the solver
    // tell all the inserted keys apart.
    assert("nil"@.len() == 3);
    assert("nil"@[0] == 'n');
    assert("nil"@[1] == 'i');
    assert("#t"@.len() == 2);
    assert("#t"@[0] == '#');
    assert("#t"@[1] == 't');
    assert("#f"@.len() == 2);
    assert("#f"@[0] == '#');
    assert("#f"@[1] == 'f');
    assert("true"@.len() == 4);
    assert("true"@[0] == 't');
    assert("true"@[1] == 'r');
    assert("false"@.len() == 5);
    assert("false"@[0] == 'f');
    assert("false"@[1] == 'a');
    assert("quote"@.len() == 5);
    assert("quote"@[0] == 'q');
    assert("quote"@[1] == 'u');
    assert("let"@.len() == 3);
    assert("let"@[0] == 'l');
    assert("let"@[1] == 'e');
    assert("set"@.len() == 3);
    assert("set"@[0] == 's');
    assert("set"@[1] == 'e');
    assert("if"@.len() == 2);
    assert("if"@[0] == 'i');
    assert("if"@[1] == 'f');
    assert("and"@.len() == 3);
    assert("and"@[0] == 'a');
    assert("and"@[1] == 'n');
    assert("or"@.len() == 2);
    assert("or"@[0] == 'o');
    assert("or"@[1] == 'r');
    assert("begin"@.len() == 5);
    assert("begin"@[0] == 'b');
    assert("begin"@[1] == 'e');
    assert("lambda"@.len() == 6);
    assert("lambda"@[0] == 'l');
    assert("lambda"@[1] == 'a');
    assert("funcall"@.len() == 7);
    assert("funcall"@[0] == 'f');
    assert("funcall"@[1] == 'u');
    assert("apply"@.len() == 5);
    assert("apply"@[0] == 'a');
    assert("apply"@[1] == 'p');
    assert("eval"@.len() == 4);
    assert("eval"@[0] == 'e');
    assert("eval"@[1] == 'v');
    assert("map"@.len() == 3);
    assert("map"@[0] == 'm');
    assert("map"@[1] == 'a');
    assert("fold"@.len() == 4);
    assert("fold"@[0] == 'f');
    assert("fold"@[1] == 'o');
    assert("car"@.len() == 3);
    assert("car"@[0] == 'c');
    assert("car"@[1] == 'a');
    assert("cdr"@.len() == 3);
    assert("cdr"@[0] == 'c');
    assert("cdr"@[1] == 'd');
    assert("cons"@.len() == 4);
    assert("cons"@[0] == 'c');
    assert("cons"@[1] == 'o');
    assert("list"@.len() == 4);
    assert("list"@[0] == 'l');
    assert("list"@[1] == 'i');
    assert("not"@.len() == 3);
    assert("not"@[0] == 'n');
    assert("not"@[1] == 'o');
    assert("+"@.len() == 1);
    assert("+"@[0] == '+');
    assert("-"@.len() == 1);
    assert("-"@[0] == '-');
    assert("*"@.len() == 1);
    assert("*"@[0] == '*');
    assert("/"@.len() == 1);
    assert("/"@[0] == '/');
    assert("equal"@.len() == 5);
    assert("equal"@[0] == 'e');
    assert("equal"@[1] == 'q');
    assert("<"@.len() == 1);
    assert("<"@[0] == '<');
    assert(">"@.len() == 1);
    assert(">"@[0] == '>');
    assert("<="@.len() == 2);
    assert("<="@[0] == '<');
    assert("<="@[1] == '=');
    assert(">="@.len() == 2);
    assert(">="@[0] == '>');
    assert(">="@[1] == '=');
    assert("atom"@.len() == 4);
    assert("atom"@[0] == 'a');
    assert("atom"@[1] == 't');
    assert("typeof"@.len() == 6);
    assert("typeof"@[0] == 't');
    assert("typeof"@[1] == 'y');
    assert("display"@.len() == 7);
    assert("display"@[0] == 'd');
    assert("display"@[1] == 'i');
    assert("debug"@.len() == 5);
    assert("debug"@[0] == 'd');
    assert("debug"@[1] == 'e');
    assert(forall|b: Builtin| builtin_name(b) != "nil"@);
    assert(forall|b: Builtin| builtin_name(b) != "#t"@);
    assert(forall|b: Builtin| builtin_name(b) != "#f"@);
    assert(forall|b: Builtin| builtin_name(b) != "true"@);
    assert(forall|b: Builtin| builtin_name(b) != "false"@);
    assert(forall|b: Builtin| b != Builtin::Quote ==> builtin_name(b) != "quote"@);
    assert(sm.dom().contains("nil"@) && sm["nil"@] == Val::Nil);
    assert(sm.dom().contains("#t"@) && sm["#t"@] == Val::Bool(true));
    assert(sm.dom().contains("#f"@) && sm["#f"@] == Val::Bool(false));
    assert(sm.dom().contains("true"@) && sm["true"@] == Val::Bool(true));
    assert(sm.dom().contains("false"@) && sm["false"@] == Val::Bool(false));
    assert(sm.dom().contains("quote"@) && sm["quote"@] == Val::Builtin(Builtin::Quote));
}

/// Replacing the entry that binds a name updates it in the map model.
proof fn lemma_update_entry(s: Seq<(Vec<char>, Value)>, i: int, x: (Vec<char>, Value))
    requires
        keys_unique(s),
        0 <= i < s.len(),
        x.0@ == s[i].0@,
    ensures
        keys_unique(s.update(i, x)),
        entries_map(s.update(i, x)) == entries_map(s).insert(x.0@, x.1@),
    decreases s.len(),
{
    let t = s.update(i, x);
    assert forall|a: int, b: int| 0 <= a < b < t.len() implies t[a].0@ != t[b].0@ by {
        assert(s[a].0@ != s[b].0@);
    }
    if i == s.len() - 1 {
        assert(t.drop_last() =~= s.drop_last());
        assert(t.last() == x);
        assert(entries_map(t) =~= entries_map(s).insert(x.0@, x.1@));
    } else {
        let sd = s.drop_last();
        assert(keys_unique(sd)) by {
            assert(forall|a: int, b: int|
                0 <= a < b < sd.len() ==> sd[a].0@ == s[a].0@ && sd[b].0@ == s[b].0@);
        }
        assert(sd[i] == s[i]);
        lemma_update_entry(sd, i, x);
        assert(t.drop_last() =~= sd.update(i, x));
        assert(t.last() == s.last());
        assert(s.last().0@ != x.0@) by {
            assert(s[i].0@ != s[s.len() - 1].0@);
        }
        assert(entries_map(t) =~= entries_map(s).insert(x.0@, x.1@));
    }
}

/// Appending an entry for a fresh name inserts it into the map model.
proof fn lemma_push_entry(s: Seq<(Vec<char>, Value)>, x: (Vec<char>, Value))
    requires
        keys_unique(s),
        forall|j: int| 0 <= j < s.len() ==> (#[trigger] s[j].0@) != x.0@,
    ensures
        keys_unique(s.push(x)),
        entries_map(s.push(x)) == entries_map(s).insert(x.0@, x.1@),
{
    let t = s.push(x);
    assert forall|a: int, b: int| 0 <= a < b < t.len() implies t[a].0@ != t[b].0@ by {
        if b < s.len() {
            assert(s[a].0@ != s[b].0@);
        } else {
            assert(t[a] == s[a]);
            assert(t[b] == x);
        }
    }
    assert(t.drop_last() =~= s);
    assert(t.last() == x);
    assert(entries_map(t) == entries_map(t.drop_last()).insert(t.last().0@, t.last().1@));
}

} // verus!
