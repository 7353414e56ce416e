//! Game instances: named collections pointing at a game root directory.
//!
//! An instance is just (name, game directory). Deleting an instance removes
//! only the launcher-side record — the game directory is never touched.
use vstd::prelude::*;
use vstd::relations::injective_on;
use vstd::set_lib::*;

use crate::lang::{tr, tr_spec, Language};
use crate::text::{dec, lemma_dec_injective, push_dec, push_str_chars, str_eq, string_of, to_chars, trim, trim_str};

verus! {

broadcast use vstd::std_specs::vec::group_vec_axioms, vstd::seq::group_seq_axioms;

/// The file the instances are stored in, in the launcher home.
pub const INSTANCES_FILE: &'static str = "instances.json";

/// One launch target.
#[derive(Debug, Clone)]
pub struct Instance {
    pub name: String,
    /// The instance's own game root (its `versions/`, `saves/`, … live here).
    pub game_dir: String,
}

/// The list of instances.
#[derive(Debug, Clone)]
pub struct InstanceStore {
    pub instances: Vec<Instance>,
}

/// Why an instance cannot be created.
#[derive(Debug, Clone, Copy, PartialEq, Eq, Structural)]
pub enum InstanceError {
    /// The name is blank.
    EmptyName,
    /// The game directory is blank.
    EmptyGameDir,
}

impl InstanceError {
    /// The English text of the problem.
    pub open spec fn message_spec(self) -> Seq<char> {
        match self {
            InstanceError::EmptyName => "instance name is empty"@,
            InstanceError::EmptyGameDir => "instance game directory is empty"@,
        }
    }

    pub fn message(self) -> (r: &'static str)
        ensures
            r@ == self.message_spec(),
    {
        match self {
            InstanceError::EmptyName => "instance name is empty",
            InstanceError::EmptyGameDir => "instance game directory is empty",
        }
    }

    /// The text of the problem in the UI language.
    pub fn message_in(self, lang: Language) -> (r: String)
        ensures
            r@ == tr_spec(lang, self.message_spec()),
    {
        string_of(to_chars(tr(lang, self.message())).as_slice())
    }
}

pub open spec fn instance_names(v: Seq<Instance>) -> Seq<Seq<char>> {
    v.map_values(|i: Instance| i.name@)
}

/// The `k`-th name tried for a new instance called `base`: `base` itself,
/// then `base (1)`, `base (2)`, …
pub open spec fn candidate_name(base: Seq<char>, k: nat) -> Seq<char> {
    if k == 0 {
        base
    } else {
        base + " ("@ + dec(k) + ")"@
    }
}

/// The first position at or after `from` of an instance named `name`.
pub open spec fn index_of_name(v: Seq<Instance>, name: Seq<char>, from: int) -> Option<int>
    decreases v.len() - from,
{
    if from < 0 || from >= v.len() {
        None
    } else if v[from].name@ == name {
        Some(from)
    } else {
        index_of_name(v, name, from + 1)
    }
}

impl InstanceStore {
    /// An empty store.
    pub fn new() -> (r: InstanceStore)
        ensures
            r.instances@.len() == 0,
    {
        InstanceStore { instances: Vec::new() }
    }

    fn find(&self, name: &str) -> (r: Option<usize>)
        ensures
            match r {
                Some(i) => i < self.instances.len() && index_of_name(self.instances@, name@, 0) == Some(
                    i as int,
                ),
                None => index_of_name(self.instances@, name@, 0) is None,
            },
    {
        let mut i: usize = 0;
        while i < self.instances.len()
            invariant
                i <= self.instances.len(),
                index_of_name(self.instances@, name@, 0) == index_of_name(
                    self.instances@,
                    name@,
                    i as int,
                ),
            decreases self.instances.len() - i,
        {
            if str_eq(self.instances[i].name.as_str(), name) {
                return Some(i);
            }
            i += 1;
        }
        None
    }

    /// The first instance named `name`.
    pub fn get(&self, name: &str) -> (r: Option<&Instance>)
        ensures
            match r {
                Some(inst) => index_of_name(self.instances@, name@, 0) is Some && *inst
                    == self.instances@[index_of_name(self.instances@, name@, 0)->0],
                None => index_of_name(self.instances@, name@, 0) is None,
            },
    {
        match self.find(name) {
            Some(i) => Some(&self.instances[i]),
            None => None,
        }
    }

    /// Create an instance; a numbered suffix is appended when the name
    /// exists. Returns the final name: the first of `name`, `name (1)`,
    /// `name (2)`, … (after trimming) that no instance has yet.
    pub fn create(&mut self, name: &str, game_dir: &str) -> (r: Result<String, InstanceError>)
        ensures
            trim(name@).len() == 0 ==> r == Err::<String, InstanceError>(InstanceError::EmptyName),
            trim(name@).len() > 0 && trim(game_dir@).len() == 0 ==> r == Err::<String, InstanceError>(
                InstanceError::EmptyGameDir,
            ),
            trim(name@).len() > 0 && trim(game_dir@).len() > 0 ==> r is Ok,
            r is Err ==> final(self).instances@ == old(self).instances@,
            r matches Ok(n) ==> {
                &&& trim(name@).len() > 0 && trim(game_dir@).len() > 0
                &&& exists|k: nat| {
                    &&& n@ == candidate_name(trim(name@), k)
                    &&& forall|j: nat| j < k ==> instance_names(old(self).instances@).contains(
                        #[trigger] candidate_name(trim(name@), j),
                    )
                }
                &&& !instance_names(old(self).instances@).contains(n@)
                &&& final(self).instances@.len() == old(self).instances@.len() + 1
                &&& final(self).instances@.take(old(self).instances@.len() as int) == old(self).instances@
                &&& final(self).instances@.last().name@ == n@
                &&& final(self).instances@.last().game_dir@ == trim(game_dir@)
            },
    {
        let base = trim_str(name);
        if base.len() == 0 {
            return Err(InstanceError::EmptyName);
        }
        let dir = trim_str(game_dir);
        if dir.len() == 0 {
            return Err(InstanceError::EmptyGameDir);
        }
        let ghost names = instance_names(self.instances@);
        let ghost n = self.instances@.len();
        let mut final_name = string_of(base.as_slice());
        let mut counter: u64 = 0;
        loop
            invariant
                names == instance_names(self.instances@),
                n == self.instances@.len(),
                base@ == trim(name@),
                counter <= n,
                final_name@ == candidate_name(base@, counter as nat),
                forall|j: nat| j < counter ==> names.contains(#[trigger] candidate_name(base@, j)),
            ensures
                final_name@ == candidate_name(base@, counter as nat),
                !names.contains(final_name@),
                forall|j: nat| j < counter ==> names.contains(#[trigger] candidate_name(base@, j)),
            decreases n - counter,
        {
            match self.find(final_name.as_str()) {
                None => {
                    proof {
                        if names.contains(final_name@) {
                            let k = choose|k: int| 0 <= k < names.len() && names[k] == final_name@;
                            lemma_index_of_name_found(self.instances@, final_name@, 0, k);
                        }
                    }
                    break;
                },
                Some(i) => {
                    proof {
                        lemma_index_of_name_sound(self.instances@, final_name@, 0);
                    }
                    assert(names[i as int] == final_name@);
                    proof {
                        lemma_candidates_bounded(names, base@, (counter + 1) as nat);
                    }
                    counter += 1;
                    let mut next: Vec<char> = base.clone();
                    push_str_chars(&mut next, " (");
                    push_dec(&mut next, counter);
                    push_str_chars(&mut next, ")");
                    final_name = string_of(next.as_slice());
                },
            }
        }
        let result = string_of(to_chars(final_name.as_str()).as_slice());
        self.instances.push(Instance { name: final_name, game_dir: string_of(dir.as_slice()) });
        assert(self.instances@.take(n as int) =~= old(self).instances@);
        Ok(result)
    }

    /// Delete the first instance named `name`. Returns false when the name
    /// is unknown. The game directory on disk is NOT removed.
    pub fn delete(&mut self, name: &str) -> (r: bool)
        ensures
            r == (index_of_name(old(self).instances@, name@, 0) is Some),
            r ==> final(self).instances@ == old(self).instances@.remove(
                index_of_name(old(self).instances@, name@, 0)->0,
            ),
            !r ==> final(self).instances@ == old(self).instances@,
    {
        match self.find(name) {
            Some(i) => {
                self.instances.remove(i);
                true
            },
            None => false,
        }
    }
}

proof fn lemma_index_of_name_found(v: Seq<Instance>, name: Seq<char>, from: int, k: int)
    requires
        0 <= from <= k < v.len(),
        v[k].name@ == name,
    ensures
        index_of_name(v, name, from) is Some,
    decreases k - from,
{
    if v[from].name@ != name {
        lemma_index_of_name_found(v, name, from + 1, k);
    }
}

proof fn lemma_index_of_name_sound(v: Seq<Instance>, name: Seq<char>, from: int)
    ensures
        index_of_name(v, name, from) matches Some(k) ==> 0 <= k < v.len() && v[k].name@ == name,
    decreases v.len() - from,
{
    if 0 <= from < v.len() && v[from].name@ != name {
        lemma_index_of_name_sound(v, name, from + 1);
    }
}

/// Different positions give different names.
proof fn lemma_candidate_injective(base: Seq<char>, a: nat, b: nat)
    requires
        candidate_name(base, a) == candidate_name(base, b),
    ensures
        a == b,
{
    reveal_strlit(" (");
    reveal_strlit(")");
    if a != 0 && b != 0 {
        let ca = candidate_name(base, a);
        let cb = candidate_name(base, b);
        crate::text::lemma_dec(a);
        crate::text::lemma_dec(b);
        assert(ca.subrange(base.len() + 2 as int, ca.len() - 1) =~= dec(a));
        assert(cb.subrange(base.len() + 2 as int, cb.len() - 1) =~= dec(b));
        lemma_dec_injective(a, b);
    } else if a != 0 || b != 0 {
        crate::text::lemma_dec(a);
        crate::text::lemma_dec(b);
        assert(candidate_name(base, a).len() != candidate_name(base, b).len());
    }
}

/// When the first `k` candidate names are all taken, there are at least `k`
/// names.
proof fn lemma_candidates_bounded(names: Seq<Seq<char>>, base: Seq<char>, k: nat)
    requires
        forall|j: nat| j < k ==> names.contains(#[trigger] candidate_name(base, j)),
    ensures
        k <= names.len(),
{
    let f = |j: int| candidate_name(base, j as nat);
    let xs = set_int_range(0, k as int);
    lemma_int_range(0, k as int);
    assert(injective_on(f, xs)) by {
        assert forall|a: int, b: int| xs.contains(a) && xs.contains(b) && #[trigger] f(a) == #[trigger] f(b) implies a == b by {
            lemma_candidate_injective(base, a as nat, b as nat);
        }
    }
    let ys = xs.map(f);
    lemma_map_size(xs, ys, f);
    assert(ys.subset_of(names.to_set())) by {
        assert forall|s: Seq<char>| ys.contains(s) implies names.to_set().contains(s) by {
            let j = choose|j: int| xs.contains(j) && f(j) == s;
            assert(names.contains(candidate_name(base, j as nat)));
        }
    }
    names.lemma_cardinality_of_set();
    lemma_len_subset(ys, names.to_set());
}

} // verus!
