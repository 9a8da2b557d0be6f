use vstd::prelude::*;

use crate::error::ExitStatus;
use crate::lexer::spec_is_name;
use crate::shell_bytes::ShellBytes;
use crate::encoding::{spec_bytes_to_str, spec_str_to_bytes};
use crate::text::{
    all_digits, chars_of, decimal, digits_value, int_decimal, int_to_string, is_digit, join_strings,
    parse_i64, spec_join, spec_parse_i64, str_eq, usize_to_string,
};

verus! {

/// Variable attribute bits (export, readonly).
#[derive(Debug, Clone, Copy, PartialEq, Eq, Structural)]
pub struct VarFlags(u8);

/// The export bit.
pub const EXPORT: u8 = 1u8;

/// The readonly bit.
pub const READONLY: u8 = 2u8;

impl VarFlags {
    /// The raw bits.
    pub closed spec fn bits(self) -> u8 {
        self.0
    }

    pub fn new() -> (r: Self)
        ensures
            r.bits() == 0,
    {
        VarFlags(0)
    }

    /// True if any bit of `flag` is set.
    pub fn has(self, flag: u8) -> (r: bool)
        ensures
            r == (self.bits() & flag != 0),
    {
        self.0 & flag != 0
    }

    /// Set the bits of `flag`.
    pub fn set(&mut self, flag: u8)
        ensures
            final(self).bits() == old(self).bits() | flag,
    {
        self.0 = self.0 | flag;
    }

    /// Clear the bits of `flag`.
    pub fn clear(&mut self, flag: u8)
        ensures
            final(self).bits() == old(self).bits() & !flag,
    {
        self.0 = self.0 & !flag;
    }
}

/// After `set` of a nonzero flag, `has` of that flag holds.
pub proof fn law_set_then_has(bits: u8, flag: u8)
    requires
        flag != 0,
    ensures
        (bits | flag) & flag != 0,
{
    assert(flag != 0 ==> (bits | flag) & flag != 0) by (bit_vector);
}

/// After `clear` of a flag, `has` of that flag does not hold.
pub proof fn law_clear_then_not_has(bits: u8, flag: u8)
    ensures
        (bits & !flag) & flag == 0,
{
    assert((bits & !flag) & flag == 0) by (bit_vector);
}

/// A shell variable.
#[derive(Debug)]
pub struct Var {
    pub value: Option<String>,
    pub flags: VarFlags,
    /// Cached integer value of `value`, when it parses as an `i64`.
    int_cache: Option<i64>,
}

impl Var {
    /// The value, as characters.
    pub closed spec fn value_view(&self) -> Option<Seq<char>> {
        match self.value {
            Some(s) => Some(s@),
            None => None,
        }
    }

    /// True if the readonly bit is set.
    pub closed spec fn is_readonly(&self) -> bool {
        self.flags.bits() & READONLY != 0
    }

    /// True if the export bit is set.
    pub closed spec fn is_exported(&self) -> bool {
        self.flags.bits() & EXPORT != 0
    }

    /// The cached integer value.
    pub closed spec fn cached_int(&self) -> Option<i64> {
        self.int_cache
    }

    /// The cache agrees with the value.
    pub closed spec fn cache_ok(&self) -> bool {
        self.int_cache == match self.value {
            Some(v) => spec_parse_i64(v@),
            None => None,
        }
    }
}

/// A copy of a variable.
pub fn clone_var(v: &Var) -> (r: Var)
    ensures
        r == *v,
{
    let value = match &v.value {
        Some(s) => Some(s.clone()),
        None => None,
    };
    Var { value, flags: v.flags, int_cache: v.int_cache }
}

fn new_var(value: Option<String>, flags: VarFlags) -> (r: Var)
    ensures
        r.value == value,
        r.flags == flags,
        r.cache_ok(),
{
    let int_cache = match &value {
        Some(s) => parse_i64(s.as_str()),
        None => None,
    };
    Var { value, flags, int_cache }
}

/// A variable's state saved by `make_local`, restored by `pop_scope`.
#[derive(Debug)]
pub struct SavedVar {
    pub name: String,
    pub previous: Option<Var>,
}

/// Variable scope pushed on function call.
#[derive(Debug)]
pub struct Scope {
    pub saved: Vec<SavedVar>,
}

/// Variable storage with scoping support.
pub struct Variables {
    /// All shell variables, one entry per name (latest value wins).
    vars: Vec<(String, Var)>,
    /// Environment entries inherited from the parent that are not valid
    /// shell variable names; kept for child processes.
    inherited_env: Vec<(ShellBytes, ShellBytes)>,
    /// Stack of scopes for local variable restoration.
    scopes: Vec<Scope>,
    /// Positional parameters ($1, $2, ...).
    pub positional: Vec<String>,
    /// $0: script name or shell name.
    pub arg0: String,
}

/// The index of the entry named `name`, if any.
pub open spec fn find_index(entries: Seq<(String, Var)>, name: Seq<char>) -> Option<int>
    decreases entries.len(),
{
    if entries.len() == 0 {
        None
    } else if entries.last().0@ == name {
        Some(entries.len() - 1)
    } else {
        find_index(entries.drop_last(), name)
    }
}

/// No two entries share a name.
pub open spec fn names_unique(entries: Seq<(String, Var)>) -> bool {
    forall|i: int, j: int|
        0 <= i < entries.len() && 0 <= j < entries.len() && i != j ==> #[trigger] entries[i].0@
            != #[trigger] entries[j].0@
}

proof fn lemma_find_index(entries: Seq<(String, Var)>, name: Seq<char>)
    ensures
        find_index(entries, name) matches Some(i) ==> 0 <= i < entries.len() && entries[i].0@
            == name,
        find_index(entries, name) is None ==> forall|k: int|
            0 <= k < entries.len() ==> #[trigger] entries[k].0@ != name,
    decreases entries.len(),
{
    if entries.len() > 0 {
        lemma_find_index(entries.drop_last(), name);
        if entries.last().0@ != name {
            assert forall|k: int| 0 <= k < entries.len() - 1 implies entries[k] == entries.drop_last()[k] by {}
        }
    }
}

proof fn lemma_find_index_unique(entries: Seq<(String, Var)>, name: Seq<char>, k: int)
    requires
        names_unique(entries),
        0 <= k < entries.len(),
        entries[k].0@ == name,
    ensures
        find_index(entries, name) == Some(k),
{
    lemma_find_index(entries, name);
    match find_index(entries, name) {
        Some(i) => {
            if i != k {
                assert(entries[i].0@ != entries[k].0@);
            }
        },
        None => {},
    }
}

/// The variable named `name` in an entry list, if it has an entry.
pub open spec fn lookup_in(entries: Seq<(String, Var)>, name: Seq<char>) -> Option<Var> {
    match find_index(entries, name) {
        Some(i) => Some(entries[i].1),
        None => None,
    }
}

/// The state that popping a scope leaves for `name`: restoring the saved
/// states newest first, the oldest state saved for `name` wins; a name with
/// no saved state keeps `current`.
pub open spec fn restored(saved: Seq<SavedVar>, name: Seq<char>, current: Option<Var>) -> Option<Var>
    decreases saved.len(),
{
    if saved.len() == 0 {
        current
    } else if saved[0].name@ == name {
        saved[0].previous
    } else {
        restored(saved.drop_first(), name, current)
    }
}

/// Popping a scope gives a local variable back the state it had when it was
/// first declared local in that scope.
pub proof fn law_pop_restores_first_local(saved: Seq<SavedVar>, name: Seq<char>, current: Option<Var>, i: int)
    requires
        0 <= i < saved.len(),
        saved[i].name@ == name,
        forall|j: int| 0 <= j < i ==> (#[trigger] saved[j]).name@ != name,
    ensures
        restored(saved, name, current) == saved[i].previous,
    decreases i,
{
    if i > 0 {
        assert forall|j: int| 0 <= j < i - 1 implies (#[trigger] saved.drop_first()[j]).name@ != name by {
            assert(saved.drop_first()[j] == saved[j + 1]);
        }
        law_pop_restores_first_local(saved.drop_first(), name, current, i - 1);
    }
}

/// Popping a scope leaves every variable that was not declared local in it
/// as it is.
pub proof fn law_pop_keeps_non_locals(saved: Seq<SavedVar>, name: Seq<char>, current: Option<Var>)
    requires
        forall|j: int| 0 <= j < saved.len() ==> (#[trigger] saved[j]).name@ != name,
    ensures
        restored(saved, name, current) == current,
    decreases saved.len(),
{
    if saved.len() > 0 {
        assert forall|j: int| 0 <= j < saved.len() - 1 implies (#[trigger] saved.drop_first()[j]).name@ != name by {
            assert(saved.drop_first()[j] == saved[j + 1]);
        }
        law_pop_keeps_non_locals(saved.drop_first(), name, current);
    }
}

impl Variables {
    /// The variable named `name`, if it has an entry.
    pub closed spec fn lookup(&self, name: Seq<char>) -> Option<Var> {
        lookup_in(self.vars@, name)
    }

    /// The value of `name`, if it is set.
    pub open spec fn value_of(&self, name: Seq<char>) -> Option<Seq<char>> {
        match self.lookup(name) {
            Some(v) => v.value_view(),
            None => None,
        }
    }

    /// True if `name` is marked readonly.
    pub open spec fn readonly(&self, name: Seq<char>) -> bool {
        match self.lookup(name) {
            Some(v) => v.is_readonly(),
            None => false,
        }
    }

    /// True if `name` is marked for export.
    pub open spec fn exported(&self, name: Seq<char>) -> bool {
        match self.lookup(name) {
            Some(v) => v.is_exported(),
            None => false,
        }
    }

    /// The states saved by `make_local`, one sequence per pushed scope,
    /// outermost first.
    pub closed spec fn saved_stack(&self) -> Seq<Seq<SavedVar>> {
        self.scopes@.map_values(|s: Scope| s.saved@)
    }

    /// The positional parameters.
    pub closed spec fn params(&self) -> Seq<String> {
        self.positional@
    }

    /// The value of $0.
    pub closed spec fn script_name(&self) -> Seq<char> {
        self.arg0@
    }

    /// The number of pushed scopes.
    pub open spec fn depth(&self) -> nat {
        self.saved_stack().len()
    }

    /// The states saved in the innermost scope, oldest first.
    pub open spec fn top_saved(&self) -> Seq<SavedVar> {
        if self.depth() == 0 {
            Seq::empty()
        } else {
            self.saved_stack().last()
        }
    }

    /// The store invariant: one entry per name, every integer cache up to
    /// date, in the store and in every saved state.
    pub closed spec fn wf(&self) -> bool {
        &&& names_unique(self.vars@)
        &&& forall|i: int| 0 <= i < self.vars@.len() ==> (#[trigger] self.vars@[i]).1.cache_ok()
        &&& forall|k: int, j: int| 0 <= k < self.scopes@.len() && 0 <= j < self.scopes@[k].saved@.len()
            ==> saved_ok(#[trigger] self.scopes@[k].saved@[j])
    }

    /// Create variables with no inherited environment: only IFS is set.
    pub fn new_clean() -> (r: Self)
        ensures
            r.wf(),
            r.depth() == 0,
            r.value_of(seq!['I', 'F', 'S']) == Some(seq![' ', '\t', '\n']),
            !r.readonly(seq!['I', 'F', 'S']),
            !r.exported(seq!['I', 'F', 'S']),
            forall|n: Seq<char>| n != seq!['I', 'F', 'S'] ==> #[trigger] r.lookup(n) is None,
            r.params().len() == 0,
            r.script_name() == seq!['e', 'p', 's', 'h'],
    {
        let mut vars: Vec<(String, Var)> = Vec::new();
        let ifs = " \t\n".to_owned();
        let name = "IFS".to_owned();
        let arg0 = "epsh".to_owned();
        proof {
            reveal_strlit(" \t\n");
            reveal_strlit("IFS");
            reveal_strlit("epsh");
        }
        vars.push((name, new_var(Some(ifs), VarFlags::new())));
        let r = Variables {
            vars,
            inherited_env: Vec::new(),
            scopes: Vec::new(),
            positional: Vec::new(),
            arg0,
        };
        proof {
            assert(r.vars@[0].0@ == seq!['I', 'F', 'S']);
            lemma_find_index_unique(r.vars@, seq!['I', 'F', 'S'], 0);
            assert forall|n: Seq<char>| n != seq!['I', 'F', 'S'] implies #[trigger] r.lookup(n) is None by {
                lemma_find_index(r.vars@, n);
            }
            assert(r.saved_stack() =~= Seq::<Seq<SavedVar>>::empty());
            assert(0u8 & READONLY == 0 && 0u8 & EXPORT == 0) by (bit_vector);
        }
        r
    }

    /// Create variables for a new shell: only IFS is set. The process
    /// environment is brought in afterwards with `import_env`.
    pub fn new() -> (r: Self)
        ensures
            r.wf(),
            r.depth() == 0,
            r.value_of(seq!['I', 'F', 'S']) == Some(seq![' ', '\t', '\n']),
            !r.readonly(seq!['I', 'F', 'S']),
            !r.exported(seq!['I', 'F', 'S']),
            forall|n: Seq<char>| n != seq!['I', 'F', 'S'] ==> #[trigger] r.lookup(n) is None,
            r.params().len() == 0,
            r.script_name() == seq!['e', 'p', 's', 'h'],
    {
        Self::new_clean()
    }

    /// Position of `name` in the entry list, if it has an entry.
    fn position(&self, name: &str) -> (r: Option<usize>)
        ensures
            r matches Some(i) ==> find_index(self.vars@, name@) == Some(i as int),
            r is None ==> find_index(self.vars@, name@) is None,
    {
        let mut i: usize = self.vars.len();
        assert(self.vars@.take(i as int) =~= self.vars@);
        while i > 0
            invariant
                i <= self.vars@.len(),
                find_index(self.vars@, name@) == find_index(self.vars@.take(i as int), name@),
            decreases i,
        {
            let ghost t = self.vars@.take(i as int);
            assert(t.drop_last() =~= self.vars@.take(i - 1));
            if str_eq(self.vars[i - 1].0.as_str(), name) {
                return Some(i - 1);
            }
            i = i - 1;
        }
        assert(self.vars@.take(0) =~= Seq::<(String, Var)>::empty());
        None
    }

    /// Put `v` as the entry of `name`, replacing any entry it has.
    fn put_entry(&mut self, name: &str, v: Var)
        requires
            old(self).wf(),
            v.cache_ok(),
        ensures
            final(self).wf(),
            final(self).lookup(name@) == Some(v),
            forall|other: Seq<char>| other != name@ ==> #[trigger] final(self).lookup(other)
                == old(self).lookup(other),
            final(self).scopes == old(self).scopes,
            final(self).positional == old(self).positional,
            final(self).arg0 == old(self).arg0,
            final(self).inherited_env == old(self).inherited_env,
    {
        let ghost old_vars = self.vars@;
        proof {
            lemma_find_index(old_vars, name@);
        }
        match self.position(name) {
            Some(i) => {
                let key = self.vars[i].0.clone();
                self.vars.set(i, (key, v));
                proof {
                    assert(names_unique(self.vars@)) by {
                        assert forall|a: int, b: int|
                            0 <= a < self.vars@.len() && 0 <= b < self.vars@.len() && a != b implies #[trigger] self.vars@[a].0@
                            != #[trigger] self.vars@[b].0@ by {
                            assert(self.vars@[a].0@ == old_vars[a].0@);
                            assert(self.vars@[b].0@ == old_vars[b].0@);
                        }
                    }
                    lemma_find_index_unique(self.vars@, name@, i as int);
                    assert forall|other: Seq<char>| other != name@ implies #[trigger] self.lookup(other)
                        == old(self).lookup(other) by {
                        lemma_find_index(old_vars, other);
                        match find_index(old_vars, other) {
                            Some(k) => {
                                lemma_find_index_unique(self.vars@, other, k);
                            },
                            None => {
                                lemma_find_index(self.vars@, other);
                                if let Some(k) = find_index(self.vars@, other) {
                                    assert(self.vars@[k].0@ == old_vars[k].0@);
                                }
                            },
                        }
                    }
                }
            },
            None => {
                self.vars.push((name.to_owned(), v));
                proof {
                    let n = self.vars@.len() - 1;
                    assert(self.vars@.drop_last() =~= old_vars);
                    assert(names_unique(self.vars@)) by {
                        assert forall|a: int, b: int|
                            0 <= a < self.vars@.len() && 0 <= b < self.vars@.len() && a != b implies #[trigger] self.vars@[a].0@
                            != #[trigger] self.vars@[b].0@ by {
                            if a < n && b < n {
                                assert(self.vars@[a] == old_vars[a]);
                                assert(self.vars@[b] == old_vars[b]);
                            } else if a == n {
                                assert(self.vars@[b] == old_vars[b]);
                            } else {
                                assert(self.vars@[a] == old_vars[a]);
                            }
                        }
                    }
                    lemma_find_index_unique(self.vars@, name@, n);
                    assert forall|other: Seq<char>| other != name@ implies #[trigger] self.lookup(other)
                        == old(self).lookup(other) by {
                        lemma_find_index(old_vars, other);
                        match find_index(old_vars, other) {
                            Some(k) => {
                                assert(self.vars@[k] == old_vars[k]);
                                lemma_find_index_unique(self.vars@, other, k);
                            },
                            None => {
                                lemma_find_index(self.vars@, other);
                                if let Some(k) = find_index(self.vars@, other) {
                                    if k < n {
                                        assert(self.vars@[k] == old_vars[k]);
                                    }
                                }
                            },
                        }
                    }
                }
            },
        }
    }

    /// Remove the entry of `name`, if any.
    fn remove_entry(&mut self, name: &str)
        requires
            old(self).wf(),
        ensures
            final(self).wf(),
            final(self).lookup(name@) is None,
            forall|other: Seq<char>| other != name@ ==> #[trigger] final(self).lookup(other)
                == old(self).lookup(other),
            final(self).scopes == old(self).scopes,
            final(self).positional == old(self).positional,
            final(self).arg0 == old(self).arg0,
            final(self).inherited_env == old(self).inherited_env,
    {
        let ghost old_vars = self.vars@;
        proof {
            lemma_find_index(old_vars, name@);
        }
        match self.position(name) {
            Some(i) => {
                self.vars.remove(i);
                proof {
                    let nv = self.vars@;
                    assert forall|k: int| 0 <= k < nv.len() implies #[trigger] nv[k] == old_vars[if k < i { k } else { k + 1 }] by {}
                    assert(names_unique(nv)) by {
                        assert forall|a: int, b: int|
                            0 <= a < nv.len() && 0 <= b < nv.len() && a != b implies #[trigger] nv[a].0@
                            != #[trigger] nv[b].0@ by {
                            assert(nv[a] == old_vars[if a < i { a } else { a + 1 }]);
                            assert(nv[b] == old_vars[if b < i { b } else { b + 1 }]);
                        }
                    }
                    assert forall|k: int| 0 <= k < nv.len() implies (#[trigger] nv[k]).1.cache_ok() by {
                        assert(nv[k] == old_vars[if k < i { k } else { k + 1 }]);
                    }
                    lemma_find_index(nv, name@);
                    if let Some(k) = find_index(nv, name@) {
                        assert(nv[k] == old_vars[if k < i { k } else { k + 1 }]);
                    }
                    assert forall|other: Seq<char>| other != name@ implies #[trigger] self.lookup(other)
                        == old(self).lookup(other) by {
                        lemma_find_index(old_vars, other);
                        match find_index(old_vars, other) {
                            Some(k) => {
                                let k2 = if k < i { k } else { k - 1 };
                                assert(k != i);
                                assert(nv[k2] == old_vars[k]);
                                lemma_find_index_unique(nv, other, k2);
                            },
                            None => {
                                lemma_find_index(nv, other);
                                if let Some(k) = find_index(nv, other) {
                                    assert(nv[k] == old_vars[if k < i { k } else { k + 1 }]);
                                }
                            },
                        }
                    }
                }
            },
            None => {},
        }
    }

    /// Get a variable's value. Returns None if unset.
    pub fn get(&self, name: &str) -> (r: Option<&str>)
        ensures
            r matches Some(s) ==> self.value_of(name@) == Some(s@),
            r is None ==> self.value_of(name@) is None,
    {
        proof {
            lemma_find_index(self.vars@, name@);
        }
        match self.position(name) {
            Some(i) => match &self.vars[i].1.value {
                Some(v) => Some(v.as_str()),
                None => None,
            },
            None => None,
        }
    }

    /// Get a variable's value as raw bytes. Returns None if unset.
    pub fn get_bytes(&self, name: &str) -> (r: Option<ShellBytes>)
        ensures
            r matches Some(b) ==> self.value_of(name@) matches Some(v) && b@ == spec_str_to_bytes(v),
            r is None ==> self.value_of(name@) is None,
    {
        match self.get(name) {
            Some(s) => Some(ShellBytes::from_str_lossless(s)),
            None => None,
        }
    }

    /// Get a variable's value as an owned shell string.
    pub fn get_shell(&self, name: &str) -> (r: Option<String>)
        ensures
            r matches Some(s) ==> self.value_of(name@) == Some(s@),
            r is None ==> self.value_of(name@) is None,
    {
        match self.get(name) {
            Some(s) => Some(s.to_owned()),
            None => None,
        }
    }

    /// Set a variable from shell text. Fails, changing nothing, if the
    /// variable is readonly; otherwise keeps its flags.
    pub fn set(&mut self, name: &str, value: &str) -> (r: Result<(), String>)
        requires
            old(self).wf(),
        ensures
            final(self).wf(),
            r is Err <==> old(self).readonly(name@),
            r is Err ==> *final(self) == *old(self),
            r is Ok ==> final(self).value_of(name@) == Some(value@),
            r is Ok ==> final(self).exported(name@) == old(self).exported(name@),
            r is Ok ==> !final(self).readonly(name@),
            r is Ok ==> forall|other: Seq<char>| other != name@ ==> #[trigger] final(self).lookup(other)
                == old(self).lookup(other),
            final(self).saved_stack() == old(self).saved_stack(),
            final(self).params() == old(self).params(),
            final(self).script_name() == old(self).script_name(),
    {
        self.set_string(name, value.to_owned())
    }

    /// Set a variable to an owned shell string (see `set`).
    pub fn set_string(&mut self, name: &str, value: String) -> (r: Result<(), String>)
        requires
            old(self).wf(),
        ensures
            final(self).wf(),
            r is Err <==> old(self).readonly(name@),
            r is Err ==> *final(self) == *old(self),
            r is Ok ==> final(self).value_of(name@) == Some(value@),
            r is Ok ==> final(self).exported(name@) == old(self).exported(name@),
            r is Ok ==> !final(self).readonly(name@),
            r is Ok ==> forall|other: Seq<char>| other != name@ ==> #[trigger] final(self).lookup(other)
                == old(self).lookup(other),
            final(self).saved_stack() == old(self).saved_stack(),
            final(self).params() == old(self).params(),
            final(self).script_name() == old(self).script_name(),
    {
        let flags = match self.position(name) {
            Some(i) => {
                proof {
                    lemma_find_index(self.vars@, name@);
                }
                if self.vars[i].1.flags.has(READONLY) {
                    let mut msg = name.to_owned();
                    msg.append(": readonly variable");
                    return Err(msg);
                }
                self.vars[i].1.flags
            },
            None => VarFlags::new(),
        };
        let v = new_var(Some(value), flags);
        self.put_entry(name, v);
        proof {
            assert(0u8 & READONLY == 0) by (bit_vector);
            assert(0u8 & EXPORT == 0) by (bit_vector);
        }
        Ok(())
    }

    /// Set a variable from raw bytes (see `set`).
    pub fn set_bytes(&mut self, name: &str, value: ShellBytes) -> (r: Result<(), String>)
        requires
            old(self).wf(),
        ensures
            final(self).wf(),
            r is Err <==> old(self).readonly(name@),
            r is Err ==> *final(self) == *old(self),
            r is Ok ==> final(self).value_of(name@) == Some(spec_bytes_to_str(value@)),
            r is Ok ==> forall|other: Seq<char>| other != name@ ==> #[trigger] final(self).lookup(other)
                == old(self).lookup(other),
            final(self).saved_stack() == old(self).saved_stack(),
    {
        let s = value.to_shell_string();
        self.set_string(name, s)
    }

    /// Get a variable's cached integer value (if it parses as i64).
    pub fn get_int(&self, name: &str) -> (r: Option<i64>)
        requires
            self.wf(),
        ensures
            r == match self.value_of(name@) {
                Some(v) => spec_parse_i64(v),
                None => None,
            },
    {
        match self.position(name) {
            Some(i) => {
                proof {
                    lemma_find_index(self.vars@, name@);
                    assert(self.vars@[i as int].1.cache_ok());
                }
                self.vars[i].1.int_cache
            },
            None => None,
        }
    }

    /// Set a variable to an integer value, in decimal.
    pub fn set_int(&mut self, name: &str, value: i64) -> (r: Result<(), String>)
        requires
            old(self).wf(),
        ensures
            final(self).wf(),
            r is Err <==> old(self).readonly(name@),
            r is Err ==> *final(self) == *old(self),
            r is Ok ==> final(self).value_of(name@) == Some(int_decimal(value as int)),
            r is Ok ==> forall|other: Seq<char>| other != name@ ==> #[trigger] final(self).lookup(other)
                == old(self).lookup(other),
            final(self).saved_stack() == old(self).saved_stack(),
            final(self).params() == old(self).params(),
    {
        self.set_string(name, int_to_string(value))
    }

    /// Unset a variable. Fails, changing nothing, if it is readonly.
    pub fn unset(&mut self, name: &str) -> (r: Result<(), String>)
        requires
            old(self).wf(),
        ensures
            final(self).wf(),
            r is Err <==> old(self).readonly(name@),
            r is Err ==> *final(self) == *old(self),
            r is Ok ==> final(self).lookup(name@) is None,
            r is Ok ==> forall|other: Seq<char>| other != name@ ==> #[trigger] final(self).lookup(other)
                == old(self).lookup(other),
            final(self).saved_stack() == old(self).saved_stack(),
            final(self).params() == old(self).params(),
    {
        match self.position(name) {
            Some(i) => {
                proof {
                    lemma_find_index(self.vars@, name@);
                }
                if self.vars[i].1.flags.has(READONLY) {
                    let mut msg = name.to_owned();
                    msg.append(": readonly variable");
                    return Err(msg);
                }
            },
            None => {},
        }
        self.remove_entry(name);
        Ok(())
    }

    /// Set `flag` on a variable, creating it unset if it has no entry.
    fn set_flag(&mut self, name: &str, flag: u8)
        requires
            old(self).wf(),
        ensures
            final(self).wf(),
            final(self).lookup(name@) matches Some(v) && v.flags.bits() & flag == flag,
            final(self).value_of(name@) == old(self).value_of(name@),
            old(self).lookup(name@) matches Some(v) ==> final(self).lookup(name@) matches Some(w)
                && w.flags.bits() == v.flags.bits() | flag,
            old(self).lookup(name@) is None ==> (final(self).lookup(name@) matches Some(w)
                && w.flags.bits() == flag),
            forall|other: Seq<char>| other != name@ ==> #[trigger] final(self).lookup(other)
                == old(self).lookup(other),
            final(self).saved_stack() == old(self).saved_stack(),
            final(self).params() == old(self).params(),
    {
        proof {
            lemma_find_index(self.vars@, name@);
        }
        let v = match self.position(name) {
            Some(i) => {
                let old_var = clone_var(&self.vars[i].1);
                let mut flags = old_var.flags;
                flags.set(flag);
                proof {
                    let b: u8 = old_var.flags.bits();
                    assert((b | flag) & flag == flag) by (bit_vector);
                }
                Var { value: old_var.value, flags, int_cache: old_var.int_cache }
            },
            None => {
                let mut flags = VarFlags::new();
                flags.set(flag);
                proof {
                    assert((0u8 | flag) & flag == flag) by (bit_vector);
                    assert(0u8 | flag == flag) by (bit_vector);
                }
                new_var(None, flags)
            },
        };
        self.put_entry(name, v);
    }

    /// Mark a variable as exported.
    pub fn export(&mut self, name: &str)
        requires
            old(self).wf(),
        ensures
            final(self).wf(),
            final(self).exported(name@),
            final(self).value_of(name@) == old(self).value_of(name@),
            final(self).readonly(name@) == old(self).readonly(name@),
            forall|other: Seq<char>| other != name@ ==> #[trigger] final(self).lookup(other)
                == old(self).lookup(other),
            final(self).saved_stack() == old(self).saved_stack(),
            final(self).params() == old(self).params(),
    {
        self.set_flag(name, EXPORT);
        proof {
            let w = self.lookup(name@).unwrap();
            let b = w.flags.bits();
            assert(b & EXPORT == EXPORT ==> b & EXPORT != 0) by (bit_vector);
            if let Some(v) = old(self).lookup(name@) {
                let a = v.flags.bits();
                assert((a | EXPORT) & READONLY == a & READONLY) by (bit_vector);
            } else {
                assert(b == EXPORT);
                assert(EXPORT & READONLY == 0) by (bit_vector);
            }
        }
    }

    /// Mark a variable as readonly.
    pub fn set_readonly(&mut self, name: &str)
        requires
            old(self).wf(),
        ensures
            final(self).wf(),
            final(self).readonly(name@),
            final(self).value_of(name@) == old(self).value_of(name@),
            final(self).exported(name@) == old(self).exported(name@),
            forall|other: Seq<char>| other != name@ ==> #[trigger] final(self).lookup(other)
                == old(self).lookup(other),
            final(self).saved_stack() == old(self).saved_stack(),
            final(self).params() == old(self).params(),
    {
        self.set_flag(name, READONLY);
        proof {
            let w = self.lookup(name@).unwrap();
            let b = w.flags.bits();
            assert(b & READONLY == READONLY ==> b & READONLY != 0) by (bit_vector);
            if let Some(v) = old(self).lookup(name@) {
                let a = v.flags.bits();
                assert((a | READONLY) & EXPORT == a & EXPORT) by (bit_vector);
            } else {
                assert(b == READONLY);
                assert(READONLY & EXPORT == 0) by (bit_vector);
            }
        }
    }

    /// Push a new scope (for function calls).
    pub fn push_scope(&mut self)
        requires
            old(self).wf(),
        ensures
            final(self).wf(),
            final(self).saved_stack() == old(self).saved_stack().push(Seq::empty()),
            forall|n: Seq<char>| #[trigger] final(self).lookup(n) == old(self).lookup(n),
            final(self).params() == old(self).params(),
            final(self).script_name() == old(self).script_name(),
    {
        self.scopes.push(Scope { saved: Vec::new() });
        proof {
            let ss = self.scopes@;
            assert forall|k: int, j: int| 0 <= k < ss.len() && 0 <= j < ss[k].saved@.len()
                implies saved_ok(#[trigger] ss[k].saved@[j]) by {
                if k < ss.len() - 1 {
                    assert(ss[k] == old(self).scopes@[k]);
                }
            }
            assert(self.saved_stack() =~= old(self).saved_stack().push(Seq::empty()));
        }
    }

    /// Declare a local variable in the current scope: its present state is
    /// saved and comes back at `pop_scope`. Outside any scope, nothing happens.
    pub fn make_local(&mut self, name: &str)
        requires
            old(self).wf(),
        ensures
            final(self).wf(),
            forall|n: Seq<char>| #[trigger] final(self).lookup(n) == old(self).lookup(n),
            old(self).depth() == 0 ==> final(self).saved_stack() == old(self).saved_stack(),
            old(self).depth() > 0 ==> final(self).depth() == old(self).depth()
                && final(self).saved_stack().drop_last() == old(self).saved_stack().drop_last()
                && final(self).top_saved().drop_last() == old(self).top_saved()
                && final(self).top_saved().len() == old(self).top_saved().len() + 1
                && final(self).top_saved().last().name@ == name@
                && final(self).top_saved().last().previous == old(self).lookup(name@),
            final(self).params() == old(self).params(),
            final(self).script_name() == old(self).script_name(),
    {
        if self.scopes.len() == 0 {
            return;
        }
        proof {
            lemma_find_index(self.vars@, name@);
        }
        let previous = match self.position(name) {
            Some(i) => Some(clone_var(&self.vars[i].1)),
            None => None,
        };
        let ghost old_scopes = self.scopes@;
        let mut scope = self.scopes.pop().unwrap();
        let ghost old_saved = scope.saved@;
        scope.saved.push(SavedVar { name: name.to_owned(), previous });
        self.scopes.push(scope);
        proof {
            let ss = self.scopes@;
            let last = ss.len() - 1;
            assert(ss.drop_last() =~= old_scopes.drop_last());
            assert(ss[last].saved@ == old_saved.push(SavedVar { name: ss[last].saved@.last().name, previous }));
            assert forall|k: int, j: int| 0 <= k < ss.len() && 0 <= j < ss[k].saved@.len()
                implies saved_ok(#[trigger] ss[k].saved@[j]) by {
                if k < last {
                    assert(ss[k] == old_scopes[k]);
                } else if j < old_saved.len() {
                    assert(ss[k].saved@[j] == old_scopes[last].saved@[j]);
                } else {
                    if let Some(i) = find_index(self.vars@, name@) {
                        assert(self.vars@[i].1.cache_ok());
                    }
                }
            }
            assert(self.saved_stack().drop_last() =~= old(self).saved_stack().drop_last());
            assert(self.top_saved().drop_last() =~= old(self).top_saved());
        }
    }

    /// Put back one saved variable state.
    fn restore(&mut self, s: SavedVar)
        requires
            old(self).wf(),
            saved_ok(s),
        ensures
            final(self).wf(),
            final(self).lookup(s.name@) == s.previous,
            forall|other: Seq<char>| other != s.name@ ==> #[trigger] final(self).lookup(other)
                == old(self).lookup(other),
            final(self).scopes == old(self).scopes,
            final(self).positional == old(self).positional,
            final(self).arg0 == old(self).arg0,
    {
        match s.previous {
            Some(v) => self.put_entry(s.name.as_str(), v),
            None => self.remove_entry(s.name.as_str()),
        }
    }

    /// Pop the current scope, restoring, newest first, every variable state
    /// that `make_local` saved in it. Outside any scope, nothing happens.
    pub fn pop_scope(&mut self)
        requires
            old(self).wf(),
        ensures
            final(self).wf(),
            old(self).depth() == 0 ==> *final(self) == *old(self),
            old(self).depth() > 0 ==> final(self).saved_stack() == old(self).saved_stack().drop_last(),
            old(self).depth() > 0 ==> forall|n: Seq<char>| #[trigger] final(self).lookup(n)
                == restored(old(self).top_saved(), n, old(self).lookup(n)),
            final(self).params() == old(self).params(),
            final(self).script_name() == old(self).script_name(),
    {
        if self.scopes.len() == 0 {
            return;
        }
        let ghost old_scopes = self.scopes@;
        let ghost entries0 = self.vars@;
        let scope = self.scopes.pop().unwrap();
        let ghost orig = scope.saved@;
        proof {
            assert(self.scopes@ =~= old_scopes.drop_last());
            assert forall|k: int, j: int| 0 <= k < self.scopes@.len() && 0 <= j < self.scopes@[k].saved@.len()
                implies saved_ok(#[trigger] self.scopes@[k].saved@[j]) by {
                assert(self.scopes@[k] == old_scopes[k]);
            }
            assert(orig == old(self).top_saved());
            assert(orig.subrange(orig.len() as int, orig.len() as int) =~= Seq::<SavedVar>::empty());
        }
        let mut saved = scope.saved;
        while saved.len() > 0
            invariant
                self.wf(),
                saved@ == orig.take(saved@.len() as int),
                saved@.len() <= orig.len(),
                forall|j: int| 0 <= j < orig.len() ==> saved_ok(#[trigger] orig[j]),
                forall|n: Seq<char>| #[trigger] self.lookup(n) == restored(
                    orig.subrange(saved@.len() as int, orig.len() as int), n, lookup_in(entries0, n)),
                self.scopes@ == old_scopes.drop_last(),
                self.positional == old(self).positional,
                self.arg0 == old(self).arg0,
            decreases saved.len(),
        {
            let ghost k = saved@.len() as int;
            let s = saved.pop().unwrap();
            assert(s == orig[k - 1]);
            assert(saved@ =~= orig.take(k - 1));
            let ghost sname = s.name@;
            let ghost sprev = s.previous;
            self.restore(s);
            proof {
                let suf = orig.subrange(k - 1, orig.len() as int);
                assert(suf.drop_first() =~= orig.subrange(k, orig.len() as int));
                assert(suf[0] == orig[k - 1]);
                assert forall|n: Seq<char>| #[trigger] self.lookup(n) == restored(suf, n, lookup_in(entries0, n)) by {
                    if n == sname {
                    } else {
                    }
                }
            }
        }
        proof {
            assert(orig.subrange(0, orig.len() as int) =~= orig);
            assert(self.saved_stack() =~= old(self).saved_stack().drop_last());
        }
    }

    /// The positional parameters.
    pub fn positional_shell_strings(&self) -> (r: Vec<String>)
        ensures
            r@ == self.params(),
    {
        self.positional.clone()
    }

    /// The positional parameters joined with `sep`.
    pub fn positional_join_shell(&self, sep: &str) -> (r: String)
        ensures
            r@ == spec_join(self.params().map_values(|s: String| s@), sep@),
    {
        join_strings(&self.positional, sep)
    }

    /// $0.
    pub fn arg0_shell(&self) -> (r: String)
        ensures
            r@ == self.script_name(),
    {
        self.arg0.clone()
    }

    /// What a special parameter expands to: `$?`, `$$`, `$#`, `$0`, `$-`,
    /// `$!`, `$@` and `$*` (the positional parameters joined by spaces), `$n`
    /// for n >= 1; any other name is looked up as an ordinary variable.
    pub open spec fn special_value(
        &self,
        name: Seq<char>,
        status: i32,
        pid: u32,
        flags: Seq<char>,
        last_bg: Option<u32>,
    ) -> Option<Seq<char>> {
        if name == seq!['?'] {
            Some(int_decimal(status as int))
        } else if name == seq!['$'] {
            Some(decimal(pid as nat))
        } else if name == seq!['#'] {
            Some(decimal(self.params().len()))
        } else if name == seq!['0'] {
            Some(self.script_name())
        } else if name == seq!['-'] {
            Some(flags)
        } else if name == seq!['!'] {
            match last_bg {
                Some(p) => Some(decimal(p as nat)),
                None => None,
            }
        } else if name == seq!['@'] || name == seq!['*'] {
            Some(spec_join(self.params().map_values(|s: String| s@), seq![' ']))
        } else if name.len() > 0 && all_digits(name) {
            let n = digits_value(name);
            if 1 <= n <= self.params().len() {
                Some(self.params()[n - 1]@)
            } else {
                None
            }
        } else {
            self.value_of(name)
        }
    }

    /// Get a special parameter value ($?, $$, $#, $@, $*, $!, $-, $0, $1...),
    /// or an ordinary variable's value for any other name.
    pub fn get_special(
        &self,
        name: &str,
        exit_status: ExitStatus,
        shell_pid: u32,
        shell_flags: &str,
        last_bg_pid: Option<u32>,
    ) -> (r: Option<String>)
        ensures
            r matches Some(s) ==> self.special_value(name@, exit_status@, shell_pid, shell_flags@, last_bg_pid) == Some(s@),
            r is None ==> self.special_value(name@, exit_status@, shell_pid, shell_flags@, last_bg_pid) is None,
    {
        let cs = chars_of(name);
        let plen = self.positional.len();
        if cs.len() == 1 {
            let c = cs[0];
            proof {
                assert(name@ == seq![c]);
            }
            if c == '?' {
                return Some(int_to_string(exit_status.code() as i64));
            } else if c == '$' {
                return Some(usize_to_string(shell_pid as usize));
            } else if c == '#' {
                return Some(usize_to_string(self.positional.len()));
            } else if c == '0' {
                return Some(self.arg0.clone());
            } else if c == '-' {
                return Some(shell_flags.to_owned());
            } else if c == '!' {
                return match last_bg_pid {
                    Some(p) => Some(usize_to_string(p as usize)),
                    None => None,
                };
            } else if c == '@' || c == '*' {
                let sep = " ";
                proof {
                    reveal_strlit(" ");
                    assert(sep@ =~= seq![' ']);
                }
                return Some(join_strings(&self.positional, sep));
            }
        }
        if cs.len() > 0 && all_digit_chars(&cs) {
            match parse_index(&cs) {
                Some(n) => {
                    if n >= 1 && n <= self.positional.len() {
                        return Some(self.positional[n - 1].clone());
                    }
                    return None;
                },
                None => {
                    return None;
                },
            }
        }
        self.get_shell(name)
    }

    /// The IFS value (" \t\n" when IFS is unset).
    pub fn ifs(&self) -> (r: String)
        ensures
            self.value_of(seq!['I', 'F', 'S']) matches Some(v) ==> r@ == v,
            self.value_of(seq!['I', 'F', 'S']) is None ==> r@ == seq![' ', '\t', '\n'],
    {
        let name = "IFS";
        let dflt = " \t\n";
        proof {
            reveal_strlit("IFS");
            reveal_strlit(" \t\n");
            assert(name@ =~= seq!['I', 'F', 'S']);
            assert(dflt@ =~= seq![' ', '\t', '\n']);
        }
        match self.get_shell(name) {
            Some(v) => v,
            None => dflt.to_owned(),
        }
    }
}

/// A saved state keeps its integer cache up to date.
pub open spec fn saved_ok(s: SavedVar) -> bool {
    match s.previous {
        Some(v) => v.cache_ok(),
        None => true,
    }
}

/// True if every character is an ASCII digit.
fn all_digit_chars(cs: &Vec<char>) -> (r: bool)
    ensures
        r == all_digits(cs@),
{
    let mut i: usize = 0;
    while i < cs.len()
        invariant
            i <= cs.len(),
            forall|k: int| 0 <= k < i ==> is_digit(#[trigger] cs@[k]),
        decreases cs.len() - i,
    {
        if !('0' <= cs[i] && cs[i] <= '9') {
            return false;
        }
        i += 1;
    }
    true
}

/// The value of a digit string, when it fits in a `usize`.
fn parse_index(cs: &Vec<char>) -> (r: Option<usize>)
    requires
        all_digits(cs@),
    ensures
        r matches Some(n) ==> n == digits_value(cs@),
        r is None ==> digits_value(cs@) > usize::MAX,
{
    let mut acc: usize = 0;
    let mut i: usize = 0;
    while i < cs.len()
        invariant
            i <= cs.len(),
            all_digits(cs@),
            acc == digits_value(cs@.take(i as int)),
        decreases cs.len() - i,
    {
        assert(cs@.take(i + 1).drop_last() =~= cs@.take(i as int));
        let d = (cs[i] as u32 - '0' as u32) as usize;
        if acc > (usize::MAX - d) / 10 {
            proof {
                lemma_digits_prefix_monotone(cs@, i as int + 1);
            }
            return None;
        }
        acc = acc * 10 + d;
        i += 1;
    }
    assert(cs@.take(cs.len() as int) =~= cs@);
    Some(acc)
}

/// A digit string's value is at least the value of any of its prefixes.
proof fn lemma_digits_prefix_monotone(s: Seq<char>, k: int)
    requires
        all_digits(s),
        0 <= k <= s.len(),
    ensures
        digits_value(s) >= digits_value(s.take(k)),
    decreases s.len(),
{
    if k < s.len() {
        assert(s.drop_last().take(k) =~= s.take(k));
        assert forall|i: int| 0 <= i < s.drop_last().len() implies is_digit(#[trigger] s.drop_last()[i]) by {
            assert(s.drop_last()[i] == s[i]);
        }
        lemma_digits_prefix_monotone(s.drop_last(), k);
        lemma_digits_nonneg(s.drop_last());
        assert(is_digit(s[s.len() - 1]));
    } else {
        assert(s.take(k) =~= s);
    }
}

/// A digit string's value is not negative.
proof fn lemma_digits_nonneg(s: Seq<char>)
    requires
        all_digits(s),
    ensures
        digits_value(s) >= 0,
    decreases s.len(),
{
    if s.len() > 0 {
        assert forall|i: int| 0 <= i < s.drop_last().len() implies is_digit(#[trigger] s.drop_last()[i]) by {
            assert(s.drop_last()[i] == s[i]);
        }
        lemma_digits_nonneg(s.drop_last());
        assert(is_digit(s[s.len() - 1]));
    }
}


/// The exported, set variables of an entry list as (name, value) pairs, in
/// entry order.
pub open spec fn exported_pairs(entries: Seq<(String, Var)>) -> Seq<(Seq<char>, Seq<char>)>
    decreases entries.len(),
{
    if entries.len() == 0 {
        Seq::empty()
    } else {
        let rest = exported_pairs(entries.drop_last());
        let (k, v) = entries.last();
        if v.is_exported() && v.value_view() is Some {
            rest.push((k@, v.value_view().unwrap()))
        } else {
            rest
        }
    }
}

/// In an entry list without repeated names, `name` has a pair among the
/// exported pairs exactly when its entry is exported and set, and that pair
/// holds its value.
proof fn lemma_exported_pairs(entries: Seq<(String, Var)>, name: Seq<char>)
    requires
        names_unique(entries),
    ensures
        names_contain(exported_pairs(entries), name) <==> (lookup_in(entries, name) matches Some(v)
            && v.is_exported() && v.value_view() is Some),
        forall|i: int|
            0 <= i < exported_pairs(entries).len() && (#[trigger] exported_pairs(entries)[i]).0 == name
                ==> (lookup_in(entries, name) matches Some(v) && v.value_view() == Some(exported_pairs(entries)[i].1)),
    decreases entries.len(),
{
    if entries.len() > 0 {
        let init = entries.drop_last();
        assert(names_unique(init)) by {
            assert forall|i: int, j: int|
                0 <= i < init.len() && 0 <= j < init.len() && i != j implies #[trigger] init[i].0@ != #[trigger] init[j].0@ by {
                assert(init[i] == entries[i] && init[j] == entries[j]);
            }
        }
        lemma_exported_pairs(init, name);
        lemma_find_index(init, name);
        let rest = exported_pairs(init);
        let (k, v) = entries.last();
        if k@ == name {
            assert(find_index(entries, name) == Some(entries.len() - 1));
            assert(find_index(init, name) is None) by {
                if let Some(j) = find_index(init, name) {
                    assert(entries[j].0@ == name);
                    assert(entries[entries.len() - 1].0@ == name);
                }
            }
            assert(!names_contain(rest, name));
            if v.is_exported() && v.value_view() is Some {
                let pairs = rest.push((k@, v.value_view().unwrap()));
                assert(pairs[rest.len() as int].0 == name);
            }
        } else {
            assert(lookup_in(entries, name) == lookup_in(init, name));
            if v.is_exported() && v.value_view() is Some {
                let pairs = rest.push((k@, v.value_view().unwrap()));
                assert(exported_pairs(entries) == pairs);
                if names_contain(rest, name) {
                    let i = choose|i: int| 0 <= i < rest.len() && (#[trigger] rest[i]).0 == name;
                    assert(pairs[i] == rest[i]);
                }
                assert forall|i: int| 0 <= i < pairs.len() && (#[trigger] pairs[i]).0 == name implies rest[i].0
                    == name && pairs[i] == rest[i] by {
                    if i == rest.len() {
                        assert(pairs[i].0 == k@);
                    }
                }
            }
        }
    }
}

/// No two pairs share a name.
pub open spec fn keys_distinct(pairs: Seq<(Seq<char>, Seq<char>)>) -> bool {
    forall|i: int, j: int| 0 <= i < j < pairs.len() ==> #[trigger] pairs[i].0 != #[trigger] pairs[j].0
}

/// The exported pairs of an entry list without repeated names repeat no
/// name either.
proof fn lemma_exported_pairs_distinct(entries: Seq<(String, Var)>)
    requires
        names_unique(entries),
    ensures
        keys_distinct(exported_pairs(entries)),
    decreases entries.len(),
{
    if entries.len() > 0 {
        let init = entries.drop_last();
        assert(names_unique(init)) by {
            assert forall|i: int, j: int|
                0 <= i < init.len() && 0 <= j < init.len() && i != j implies #[trigger] init[i].0@ != #[trigger] init[j].0@ by {
                assert(init[i] == entries[i] && init[j] == entries[j]);
            }
        }
        lemma_exported_pairs_distinct(init);
        let rest = exported_pairs(init);
        let (k, v) = entries.last();
        if v.is_exported() && v.value_view() is Some {
            let pairs = rest.push((k@, v.value_view().unwrap()));
            lemma_exported_pairs(init, k@);
            lemma_find_index(init, k@);
            assert forall|i: int| 0 <= i < rest.len() implies rest[i].0 != k@ by {
                if rest[i].0 == k@ {
                    assert(names_contain(rest, k@));
                    let j = find_index(init, k@).unwrap();
                    assert(entries[j].0@ == k@);
                    assert(entries[entries.len() - 1].0@ == k@);
                }
            }
            assert forall|i: int, j: int| 0 <= i < j < pairs.len() implies #[trigger] pairs[i].0 != #[trigger] pairs[j].0 by {
                if j == rest.len() {
                    assert(pairs[i] == rest[i]);
                } else {
                    assert(pairs[i] == rest[i] && pairs[j] == rest[j]);
                }
            }
        }
    }
}

/// True if some pair of `pairs` has the name `name`.
pub open spec fn names_contain(pairs: Seq<(Seq<char>, Seq<char>)>, name: Seq<char>) -> bool {
    exists|i: int| 0 <= i < pairs.len() && (#[trigger] pairs[i]).0 == name
}

/// The inherited entries whose name (as a shell string) is in neither list.
pub open spec fn unshadowed(
    inherited: Seq<(Seq<char>, Seq<char>)>,
    a: Seq<(Seq<char>, Seq<char>)>,
    b: Seq<(Seq<char>, Seq<char>)>,
) -> Seq<(Seq<char>, Seq<char>)>
    decreases inherited.len(),
{
    if inherited.len() == 0 {
        Seq::empty()
    } else {
        let rest = unshadowed(inherited.drop_last(), a, b);
        let e = inherited.last();
        if names_contain(a, e.0) || names_contain(b, e.0) {
            rest
        } else {
            rest.push(e)
        }
    }
}

/// The pairs of strings as character sequences.
pub open spec fn pair_views(p: Seq<(String, String)>) -> Seq<(Seq<char>, Seq<char>)> {
    p.map_values(|e: (String, String)| (e.0@, e.1@))
}

/// True if `name` is a shell variable name, as characters.
fn is_name_str(name: &str) -> (r: bool)
    ensures
        r == spec_is_name(name@),
{
    let cs = chars_of(name);
    crate::lexer::is_name_chars(cs.as_slice())
}

impl Default for Variables {
    fn default() -> (r: Self)
        ensures
            r.wf(),
            r.depth() == 0,
            r.value_of(seq!['I', 'F', 'S']) == Some(seq![' ', '\t', '\n']),
    {
        Self::new()
    }
}

impl Variables {
    /// The inherited environment entries, as shell strings.
    pub closed spec fn inherited(&self) -> Seq<(Seq<char>, Seq<char>)> {
        self.inherited_env@.map_values(
            |e: (ShellBytes, ShellBytes)| (spec_bytes_to_str(e.0@), spec_bytes_to_str(e.1@)),
        )
    }

    /// The exported, set variables as (name, value) pairs, in entry order.
    pub closed spec fn exported_view(&self) -> Seq<(Seq<char>, Seq<char>)> {
        exported_pairs(self.vars@)
    }

    /// A variable is among the exported pairs exactly when it is exported
    /// and set, and its pair holds its value.
    pub proof fn lemma_exported_view(&self, name: Seq<char>)
        requires
            self.wf(),
        ensures
            names_contain(self.exported_view(), name) <==> (self.exported(name) && self.value_of(name) is Some),
            forall|i: int|
                0 <= i < self.exported_view().len() && (#[trigger] self.exported_view()[i]).0 == name
                    ==> self.value_of(name) == Some(self.exported_view()[i].1),
    {
        lemma_exported_pairs(self.vars@, name);
    }

    /// Bring one entry of the process environment in: one whose name is a
    /// shell variable name becomes an exported variable (unless that name is
    /// readonly); any other entry is kept for child processes only.
    pub fn import_env(&mut self, key: ShellBytes, value: ShellBytes)
        requires
            old(self).wf(),
        ensures
            final(self).wf(),
            spec_is_name(spec_bytes_to_str(key@)) && !old(self).readonly(spec_bytes_to_str(key@))
                ==> final(self).value_of(spec_bytes_to_str(key@)) == Some(spec_bytes_to_str(value@))
                && final(self).exported(spec_bytes_to_str(key@)),
            !spec_is_name(spec_bytes_to_str(key@)) ==> final(self).inherited() == old(self).inherited().push(
                (spec_bytes_to_str(key@), spec_bytes_to_str(value@)),
            ),
            forall|other: Seq<char>| other != spec_bytes_to_str(key@) ==> #[trigger] final(self).lookup(other)
                == old(self).lookup(other),
            final(self).saved_stack() == old(self).saved_stack(),
            final(self).readonly(spec_bytes_to_str(key@)) == old(self).readonly(spec_bytes_to_str(key@)),
            final(self).params() == old(self).params(),
    {
        let name = key.to_shell_string();
        if is_name_str(name.as_str()) {
            let v = value.to_shell_string();
            if self.set_string(name.as_str(), v).is_ok() {
                self.export(name.as_str());
            }
        } else {
            self.inherited_env.push((key, value));
            proof {
                assert(self.inherited() =~= old(self).inherited().push(
                    (spec_bytes_to_str(key@), spec_bytes_to_str(value@)),
                ));
            }
        }
    }

    /// Exported, set variables as (name, value) shell strings, in entry order.
    pub fn exported_env(&self) -> (r: Vec<(String, String)>)
        ensures
            pair_views(r@) == self.exported_view(),
            self.wf() ==> keys_distinct(pair_views(r@)),
    {
        let mut out: Vec<(String, String)> = Vec::new();
        let mut i: usize = 0;
        while i < self.vars.len()
            invariant
                i <= self.vars@.len(),
                pair_views(out@) == exported_pairs(self.vars@.take(i as int)),
            decreases self.vars.len() - i,
        {
            assert(self.vars@.take(i + 1).drop_last() =~= self.vars@.take(i as int));
            let e = &self.vars[i];
            if e.1.flags.has(EXPORT) {
                match &e.1.value {
                    Some(v) => {
                        out.push((e.0.clone(), v.clone()));
                    },
                    None => {},
                }
            }
            proof {
                assert(pair_views(out@) =~= exported_pairs(self.vars@.take(i + 1)));
            }
            i += 1;
        }
        assert(self.vars@.take(self.vars@.len() as int) =~= self.vars@);
        proof {
            if self.wf() {
                lemma_exported_pairs_distinct(self.vars@);
            }
        }
        out
    }

    /// Exported, set variables as (name, raw bytes) pairs, in entry order.
    pub fn exported_env_bytes(&self) -> (r: Vec<(String, ShellBytes)>)
        ensures
            r@.len() == self.exported_view().len(),
            forall|i: int| 0 <= i < r@.len() ==> (#[trigger] r@[i]).0@ == self.exported_view()[i].0
                && r@[i].1@ == spec_str_to_bytes(self.exported_view()[i].1),
    {
        let pairs = self.exported_env();
        let mut out: Vec<(String, ShellBytes)> = Vec::new();
        let mut i: usize = 0;
        while i < pairs.len()
            invariant
                i <= pairs@.len(),
                pair_views(pairs@) == self.exported_view(),
                out@.len() == i,
                forall|k: int| 0 <= k < i ==> (#[trigger] out@[k]).0@ == pairs@[k].0@
                    && out@[k].1@ == spec_str_to_bytes(pairs@[k].1@),
            decreases pairs.len() - i,
        {
            out.push((pairs[i].0.clone(), ShellBytes::from_str_lossless(pairs[i].1.as_str())));
            i += 1;
        }
        proof {
            assert forall|k: int| 0 <= k < out@.len() implies (#[trigger] out@[k]).0@ == self.exported_view()[k].0
                && out@[k].1@ == spec_str_to_bytes(self.exported_view()[k].1) by {
                assert(pair_views(pairs@)[k] == (pairs@[k].0@, pairs@[k].1@));
            }
        }
        out
    }

    /// The environment of a child process: the inherited entries that no
    /// exported variable and no assignment shadows, then the exported
    /// variables, then the command's own assignments.
    pub fn env_for_command(&self, assigns: &Vec<(String, String)>) -> (r: Vec<(String, String)>)
        ensures
            pair_views(r@) == unshadowed(self.inherited(), self.exported_view(), pair_views(assigns@))
                + self.exported_view() + pair_views(assigns@),
    {
        let exported = self.exported_env();
        let ghost ev = pair_views(exported@);
        let ghost av = pair_views(assigns@);
        let mut out: Vec<(String, String)> = Vec::new();
        let mut i: usize = 0;
        while i < self.inherited_env.len()
            invariant
                i <= self.inherited_env@.len(),
                ev == pair_views(exported@),
                ev == self.exported_view(),
                av == pair_views(assigns@),
                pair_views(out@) == unshadowed(self.inherited().take(i as int), ev, av),
            decreases self.inherited_env.len() - i,
        {
            let ghost inh = self.inherited();
            assert(inh.take(i + 1).drop_last() =~= inh.take(i as int));
            let name = self.inherited_env[i].0.to_shell_string();
            let value = self.inherited_env[i].1.to_shell_string();
            assert(inh.take(i + 1).last() == (name@, value@));
            let shadowed = has_name(&exported, name.as_str()) || has_name(assigns, name.as_str());
            if !shadowed {
                out.push((name, value));
            }
            proof {
                assert(pair_views(out@) =~= unshadowed(inh.take(i + 1), ev, av));
            }
            i += 1;
        }
        assert(self.inherited().take(self.inherited_env@.len() as int) =~= self.inherited());
        let ghost before = out@;
        let mut j: usize = 0;
        while j < exported.len()
            invariant
                j <= exported@.len(),
                out@ == before + exported@.take(j as int),
            decreases exported.len() - j,
        {
            out.push((exported[j].0.clone(), exported[j].1.clone()));
            assert(exported@.take(j + 1) =~= exported@.take(j as int).push(exported@[j as int]));
            j += 1;
        }
        let ghost mid = out@;
        let mut k: usize = 0;
        while k < assigns.len()
            invariant
                k <= assigns@.len(),
                out@ == mid + assigns@.take(k as int),
            decreases assigns.len() - k,
        {
            out.push((assigns[k].0.clone(), assigns[k].1.clone()));
            assert(assigns@.take(k + 1) =~= assigns@.take(k as int).push(assigns@[k as int]));
            k += 1;
        }
        proof {
            assert(exported@.take(exported@.len() as int) =~= exported@);
            assert(assigns@.take(assigns@.len() as int) =~= assigns@);
            assert(pair_views(out@) =~= pair_views(before) + ev + av);
        }
        out
    }
}

/// True if some pair of `pairs` has the name `name`.
fn has_name(pairs: &Vec<(String, String)>, name: &str) -> (r: bool)
    ensures
        r == names_contain(pair_views(pairs@), name@),
{
    let mut i: usize = 0;
    while i < pairs.len()
        invariant
            i <= pairs@.len(),
            forall|k: int| 0 <= k < i ==> (#[trigger] pairs@[k]).0@ != name@,
        decreases pairs.len() - i,
    {
        if str_eq(pairs[i].0.as_str(), name) {
            proof {
                assert(pair_views(pairs@)[i as int].0 == name@);
            }
            return true;
        }
        i += 1;
    }
    proof {
        assert forall|k: int| 0 <= k < pair_views(pairs@).len() implies (#[trigger] pair_views(pairs@)[k]).0 != name@ by {
            assert(pair_views(pairs@)[k].0 == pairs@[k].0@);
        }
    }
    false
}


/// A copy of a saved variable state.
fn clone_saved(s: &SavedVar) -> (r: SavedVar)
    ensures
        r == *s,
{
    let previous = match &s.previous {
        Some(v) => Some(clone_var(v)),
        None => None,
    };
    SavedVar { name: s.name.clone(), previous }
}

impl Variables {
    /// A copy of the whole store: the same variables, scopes, positional
    /// parameters and $0.
    pub fn duplicate(&self) -> (r: Variables)
        requires
            self.wf(),
        ensures
            r.wf(),
            forall|n: Seq<char>| #[trigger] r.lookup(n) == self.lookup(n),
            r.saved_stack() == self.saved_stack(),
            r.params() == self.params(),
            r.script_name() == self.script_name(),
    {
        let mut vars: Vec<(String, Var)> = Vec::new();
        let mut i: usize = 0;
        while i < self.vars.len()
            invariant
                i <= self.vars@.len(),
                vars@ == self.vars@.take(i as int),
            decreases self.vars.len() - i,
        {
            vars.push((self.vars[i].0.clone(), clone_var(&self.vars[i].1)));
            assert(self.vars@.take(i + 1) =~= self.vars@.take(i as int).push(self.vars@[i as int]));
            i += 1;
        }
        assert(self.vars@.take(self.vars@.len() as int) =~= self.vars@);
        let mut scopes: Vec<Scope> = Vec::new();
        let mut k: usize = 0;
        while k < self.scopes.len()
            invariant
                k <= self.scopes@.len(),
                scopes@.len() == k,
                forall|j: int| 0 <= j < k ==> (#[trigger] scopes@[j]).saved@ == self.scopes@[j].saved@,
            decreases self.scopes.len() - k,
        {
            let mut saved: Vec<SavedVar> = Vec::new();
            let src = &self.scopes[k].saved;
            let mut m: usize = 0;
            while m < src.len()
                invariant
                    m <= src@.len(),
                    saved@ == src@.take(m as int),
                decreases src.len() - m,
            {
                saved.push(clone_saved(&src[m]));
                assert(src@.take(m + 1) =~= src@.take(m as int).push(src@[m as int]));
                m += 1;
            }
            assert(src@.take(src@.len() as int) =~= src@);
            scopes.push(Scope { saved });
            k += 1;
        }
        let mut inherited: Vec<(ShellBytes, ShellBytes)> = Vec::new();
        let mut e: usize = 0;
        while e < self.inherited_env.len()
            invariant
                e <= self.inherited_env@.len(),
            decreases self.inherited_env.len() - e,
        {
            let a = self.inherited_env[e].0.duplicate();
            let b = self.inherited_env[e].1.duplicate();
            inherited.push((a, b));
            e += 1;
        }
        let r = Variables {
            vars,
            inherited_env: inherited,
            scopes,
            positional: self.positional.clone(),
            arg0: self.arg0.clone(),
        };
        proof {
            assert(r.saved_stack() =~= self.saved_stack());
            assert forall|j: int, m: int| 0 <= j < r.scopes@.len() && 0 <= m < r.scopes@[j].saved@.len()
                implies saved_ok(#[trigger] r.scopes@[j].saved@[m]) by {
                assert(r.scopes@[j].saved@ == self.scopes@[j].saved@);
            }
        }
        r
    }

    /// Replace the positional parameters.
    pub fn set_params(&mut self, params: Vec<String>)
        requires
            old(self).wf(),
        ensures
            final(self).wf(),
            final(self).params() == params@,
            forall|n: Seq<char>| #[trigger] final(self).lookup(n) == old(self).lookup(n),
            final(self).saved_stack() == old(self).saved_stack(),
            final(self).script_name() == old(self).script_name(),
    {
        self.positional = params;
    }

    /// Replace $0.
    pub fn set_arg0(&mut self, name: String)
        requires
            old(self).wf(),
        ensures
            final(self).wf(),
            final(self).script_name() == name@,
            final(self).params() == old(self).params(),
            forall|n: Seq<char>| #[trigger] final(self).lookup(n) == old(self).lookup(n),
            final(self).saved_stack() == old(self).saved_stack(),
    {
        self.arg0 = name;
    }

    /// The positional parameters.
    pub fn params_vec(&self) -> (r: &Vec<String>)
        ensures
            r@ == self.params(),
    {
        &self.positional
    }
}

} // verus!
