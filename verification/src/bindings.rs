//! The binding table: every compiled binding of every configured shortcut,
//! ordered by descending specificity so that, when several bindings are
//! satisfied by the pressed keys at once, the most specific one is found
//! first and wins.

use vstd::prelude::*;
use vstd::multiset::Multiset;
use vstd::seq_lib::lemma_multiset_commutative;

use crate::keys::Key;
use crate::shortcut::Action;
use crate::shortcut::CompiledBinding;

verus! {

/// The specificity of a binding: how many physical keys it requires.
pub open spec fn specificity(b: CompiledBinding) -> nat {
    b.keys@.len()
}

/// Ordered by descending specificity.
pub open spec fn sorted_by_specificity_desc(s: Seq<CompiledBinding>) -> bool {
    forall|i: int, j: int|
        0 <= i <= j < s.len() ==> specificity(s[i]) >= specificity(s[j])
}

/// Every key of the combination is among the pressed keys.
pub open spec fn satisfied_by(keys: Seq<Key>, pressed: Seq<Key>) -> bool {
    forall|i: int| 0 <= i < keys.len() ==> pressed.contains(#[trigger] keys[i])
}

/// Are all keys this binding requires currently pressed?
pub fn is_all_keybinding_keys_pressed(keybindings: &Vec<Key>, pressed_keys: &Vec<Key>) -> (r: bool)
    ensures
        r == satisfied_by(keybindings@, pressed_keys@),
{
    let mut i: usize = 0;
    while i < keybindings.len()
        invariant
            i <= keybindings@.len(),
            forall|j: int| 0 <= j < i ==> pressed_keys@.contains(#[trigger] keybindings@[j]),
        decreases keybindings@.len() - i,
    {
        let key = keybindings[i];
        let mut found = false;
        let mut j: usize = 0;
        while j < pressed_keys.len()
            invariant
                j <= pressed_keys@.len(),
                found ==> pressed_keys@.contains(key),
                !found ==> forall|m: int| 0 <= m < j ==> pressed_keys@[m] != key,
            decreases pressed_keys@.len() - j,
        {
            if pressed_keys[j] == key {
                found = true;
            }
            j += 1;
        }
        if !found {
            return false;
        }
        i += 1;
    }
    true
}

/// The index of the first binding in the table whose whole key set is
/// pressed, if any.
pub open spec fn first_match_spec(table: Seq<CompiledBinding>, pressed: Seq<Key>) -> Option<int>
    decreases table.len(),
{
    if table.len() == 0 {
        None
    } else if satisfied_by(table[0].keys@, pressed) {
        Some(0)
    } else {
        match first_match_spec(table.drop_first(), pressed) {
            Some(i) => Some(i + 1),
            None => None,
        }
    }
}

/// What the first match is: a satisfied binding before which no binding is
/// satisfied, or nothing when no binding is satisfied at all.
pub proof fn lemma_first_match_is_first(table: Seq<CompiledBinding>, pressed: Seq<Key>)
    ensures
        match first_match_spec(table, pressed) {
            Some(i) => 0 <= i < table.len() && satisfied_by(table[i].keys@, pressed) && forall|
                j: int,
            | 0 <= j < i ==> !satisfied_by(table[j].keys@, pressed),
            None => forall|j: int| 0 <= j < table.len() ==> !satisfied_by(table[j].keys@, pressed),
        },
    decreases table.len(),
{
    if table.len() == 0 {
    } else if satisfied_by(table[0].keys@, pressed) {
    } else {
        lemma_first_match_is_first(table.drop_first(), pressed);
        let rest = table.drop_first();
        assert(forall|j: int| 0 <= j < rest.len() ==> rest[j] == table[j + 1]);
        match first_match_spec(rest, pressed) {
            Some(i) => {
                assert(rest[i] == table[i + 1]);
                assert forall|j: int| 0 <= j < i + 1 implies !satisfied_by(
                    table[j].keys@,
                    pressed,
                ) by {
                    if j > 0 {
                        assert(table[j] == rest[j - 1]);
                    }
                }
            },
            None => {
                assert forall|j: int| 0 <= j < table.len() implies !satisfied_by(
                    table[j].keys@,
                    pressed,
                ) by {
                    if j > 0 {
                        assert(table[j] == rest[j - 1]);
                    }
                }
            },
        }
    }
}

/// Walk the table in order and return the index of the first binding all of
/// whose keys are pressed.
pub fn first_match(table: &Vec<CompiledBinding>, pressed: &Vec<Key>) -> (r: Option<usize>)
    ensures
        match r {
            Some(i) => i < table@.len() && satisfied_by(table@[i as int].keys@, pressed@)
                && (forall|j: int| 0 <= j < i ==> !satisfied_by(table@[j].keys@, pressed@))
                && first_match_spec(table@, pressed@) == Some(i as int),
            None => (forall|j: int|
                0 <= j < table@.len() ==> !satisfied_by(table@[j].keys@, pressed@))
                && first_match_spec(table@, pressed@) is None,
        },
{
    let mut i: usize = 0;
    while i < table.len()
        invariant
            i <= table@.len(),
            forall|j: int| 0 <= j < i ==> !satisfied_by(table@[j].keys@, pressed@),
        decreases table@.len() - i,
    {
        if is_all_keybinding_keys_pressed(&table[i].keys, pressed) {
            proof {
                lemma_first_match_is_first(table@, pressed@);
                match first_match_spec(table@, pressed@) {
                    Some(w) => {
                        if w < i {
                            assert(satisfied_by(table@[w].keys@, pressed@));
                        } else if w > i {
                            assert(!satisfied_by(table@[i as int].keys@, pressed@));
                        }
                    },
                    None => {
                        assert(!satisfied_by(table@[i as int].keys@, pressed@));
                    },
                }
            }
            return Some(i);
        }
        i += 1;
    }
    proof {
        lemma_first_match_is_first(table@, pressed@);
        if let Some(w) = first_match_spec(table@, pressed@) {
            assert(!satisfied_by(table@[w].keys@, pressed@));
        }
    }
    None
}

proof fn lemma_insert_to_multiset<A>(s: Seq<A>, i: int, b: A)
    requires
        0 <= i <= s.len(),
    ensures
        s.insert(i, b).to_multiset() =~= s.to_multiset().insert(b),
{
    broadcast use vstd::seq_lib::group_to_multiset_ensures;

    let t = s.insert(i, b);
    assert(t =~= s.take(i) + (seq![b] + s.skip(i)));
    lemma_multiset_commutative(s.take(i), seq![b] + s.skip(i));
    lemma_multiset_commutative(seq![b], s.skip(i));
    assert(seq![b] =~= Seq::<A>::empty().push(b));
    assert(seq![b].to_multiset() =~= Multiset::<A>::empty().insert(b));
    assert(s =~= s.take(i) + s.skip(i));
    lemma_multiset_commutative(s.take(i), s.skip(i));
}

/// A compiled binding reduced to its mathematical content: the key set it
/// requires and the action it triggers.
pub open spec fn binding_pair(b: CompiledBinding) -> (Seq<Key>, Action) {
    (b.keys@, b.action)
}

/// The pairs of a whole table.
pub open spec fn binding_pairs(s: Seq<CompiledBinding>) -> Seq<(Seq<Key>, Action)> {
    s.map_values(|b: CompiledBinding| binding_pair(b))
}

/// Order a set of compiled bindings by descending specificity. Bindings of
/// equal specificity may end up in either order; the result holds exactly
/// the bindings that went in.
pub fn sort_bindings(bindings: Vec<CompiledBinding>) -> (r: Vec<CompiledBinding>)
    ensures
        sorted_by_specificity_desc(r@),
        r@.to_multiset() == bindings@.to_multiset(),
        binding_pairs(r@).to_multiset() == binding_pairs(bindings@).to_multiset(),
        r@.len() == bindings@.len(),
{
    broadcast use vstd::seq_lib::group_to_multiset_ensures;

    let mut rest = bindings;
    let mut r: Vec<CompiledBinding> = Vec::new();
    while rest.len() > 0
        invariant
            sorted_by_specificity_desc(r@),
            r@.to_multiset().add(rest@.to_multiset()) == bindings@.to_multiset(),
            binding_pairs(r@).to_multiset().add(binding_pairs(rest@).to_multiset())
                == binding_pairs(bindings@).to_multiset(),
            r@.len() + rest@.len() == bindings@.len(),
        decreases rest@.len(),
    {
        let ghost rest_pre = rest@;
        let b = rest.pop().unwrap();
        proof {
            rest_pre.to_multiset_ensures();
            assert(rest@ =~= rest_pre.remove(rest_pre.len() - 1));
            assert(rest_pre[rest_pre.len() - 1] == b);
            assert(rest_pre.remove(rest_pre.len() - 1).to_multiset() =~= rest_pre.to_multiset()
                .remove(b));
            assert(rest_pre.contains(b));
            assert(rest_pre.to_multiset().count(b) > 0);
            binding_pairs(rest_pre).to_multiset_ensures();
            assert(binding_pairs(rest@) =~= binding_pairs(rest_pre).remove(
                rest_pre.len() - 1,
            ));
            assert(binding_pairs(rest_pre)[rest_pre.len() - 1] == binding_pair(b));
            assert(binding_pairs(rest_pre).remove(rest_pre.len() - 1).to_multiset()
                =~= binding_pairs(rest_pre).to_multiset().remove(binding_pair(b)));
            assert(binding_pairs(rest_pre).contains(binding_pair(b)));
            assert(binding_pairs(rest_pre).to_multiset().count(binding_pair(b)) > 0);
        }
        // find the first position whose binding is less specific than b
        let mut idx: usize = 0;
        while idx < r.len() && r[idx].keys.len() >= b.keys.len()
            invariant
                idx <= r@.len(),
                forall|j: int| 0 <= j < idx ==> specificity(r@[j]) >= specificity(b),
            decreases r@.len() - idx,
        {
            idx += 1;
        }
        let ghost r_pre = r@;
        proof {
            assert(idx < r_pre.len() ==> specificity(r_pre[idx as int]) < specificity(b));
        }
        r.insert(idx, b);
        proof {
            assert(r@ == r_pre.insert(idx as int, b));
            lemma_insert_to_multiset(r_pre, idx as int, b);
            assert(binding_pairs(r@) =~= binding_pairs(r_pre).insert(
                idx as int,
                binding_pair(b),
            ));
            lemma_insert_to_multiset(binding_pairs(r_pre), idx as int, binding_pair(b));
            assert forall|i: int, j: int| 0 <= i <= j < r@.len() implies specificity(r@[i])
                >= specificity(r@[j]) by {
                if i < idx && j < idx {
                    assert(r@[i] == r_pre[i] && r@[j] == r_pre[j]);
                } else if i < idx && j == idx {
                    assert(r@[i] == r_pre[i] && r@[j] == b);
                } else if i < idx && j > idx {
                    assert(r@[i] == r_pre[i] && r@[j] == r_pre[j - 1]);
                    if idx < r_pre.len() {
                        assert(specificity(r_pre[j - 1]) <= specificity(r_pre[idx as int]));
                    }
                } else if i == idx && j > idx {
                    assert(r@[i] == b && r@[j] == r_pre[j - 1]);
                    assert(specificity(r_pre[j - 1]) <= specificity(r_pre[idx as int]));
                    assert(specificity(r_pre[idx as int]) < specificity(b));
                } else if i == idx && j == idx {
                } else {
                    assert(r@[i] == r_pre[i - 1] && r@[j] == r_pre[j - 1]);
                }
            }
            assert(r@.to_multiset().add(rest@.to_multiset()) =~= bindings@.to_multiset());
            assert(binding_pairs(r@).to_multiset().add(binding_pairs(rest@).to_multiset())
                =~= binding_pairs(bindings@).to_multiset());
        }
    }
    proof {
        assert(rest@ =~= Seq::<CompiledBinding>::empty());
        assert(rest@.to_multiset() =~= Multiset::<CompiledBinding>::empty());
        assert(r@.to_multiset() =~= bindings@.to_multiset());
        assert(binding_pairs(rest@) =~= Seq::<(Seq<Key>, Action)>::empty());
        assert(binding_pairs(rest@).to_multiset() =~= Multiset::<(Seq<Key>, Action)>::empty());
        assert(binding_pairs(r@).to_multiset() =~= binding_pairs(bindings@).to_multiset());
    }
    r
}

/// Binding-table priority: whenever the table is ordered by descending
/// specificity and some binding is satisfied by the pressed keys, the
/// binding the matcher executes — the first satisfied one — is at least as
/// specific as any satisfied binding; a less specific rival never wins.
pub proof fn lemma_highest_specificity_wins(
    table: Seq<CompiledBinding>,
    pressed: Seq<Key>,
    winner: int,
    rival: int,
)
    requires
        sorted_by_specificity_desc(table),
        first_match_spec(table, pressed) == Some(winner),
        0 <= rival < table.len(),
        satisfied_by(table[rival].keys@, pressed),
    ensures
        0 <= winner < table.len(),
        satisfied_by(table[winner].keys@, pressed),
        specificity(table[winner]) >= specificity(table[rival]),
{
    lemma_first_match_is_first(table, pressed);
    if rival < winner {
        assert(!satisfied_by(table[rival].keys@, pressed));
    }
}

} // verus!
