//! Compiling an authored shortcut into concrete key combinations.
//!
//! A shortcut names one primary key and some modifier roles. Every modifier
//! role is satisfied by one of up to two physical keys, so one shortcut
//! stands for the Cartesian product of those choices: one compiled binding
//! per way of picking a physical key for each role.

use vstd::prelude::*;

use crate::keys::Key;
use crate::keys::Modifier;
use crate::keys::map_modifier;
use crate::keys::map_modifier_spec;
use crate::keys::modifier_cardinality;

verus! {

/// What a fully matched binding does to the target structure.
#[derive(Clone, Copy, PartialEq, Eq, Structural, Debug)]
pub enum Action {
    /// Select the slot with this 0-based index (clamped to the occupied ones).
    SetMemorySlot(u8),
    /// Step the selection one slot backward, wrapping at the ends.
    CycleBack,
    /// Step the selection one slot forward, wrapping at the ends.
    CycleForward,
    /// An unrecognized configuration entry; never stored in a binding table.
    NoOp,
}

/// An authored shortcut: the primary key's name and the modifier roles
/// that must be held with it.
pub struct Shortcut {
    pub key: String,
    pub modifiers: Vec<Modifier>,
}

/// One concrete gesture: all of `keys` down at once triggers `action`.
/// The specificity of the binding is `keys.len()`.
#[derive(Debug)]
pub struct CompiledBinding {
    pub keys: Vec<Key>,
    pub action: Action,
}

/// Combine a key with an already combined key set; the sets are free of
/// duplicates, so a key already present is not added again.
pub open spec fn join_key(k: Key, combo: Seq<Key>) -> Seq<Key> {
    if combo.contains(k) {
        combo
    } else {
        seq![k] + combo
    }
}

/// All combinations of one element of `first` with one combination of the
/// remaining factors, grouped by the element of `first`, in order.
pub open spec fn product_with(first: Seq<Key>, rest: Seq<Seq<Key>>) -> Seq<Seq<Key>>
    decreases first.len(),
{
    if first.len() == 0 {
        Seq::empty()
    } else {
        product_with(first.drop_last(), rest) + rest.map_values(|c: Seq<Key>| join_key(first.last(), c))
    }
}

/// The Cartesian product of a list of key-set factors: the product of no
/// factors is the single empty combination, and each further factor pairs
/// every one of its elements with every combination of the rest.
pub open spec fn product_spec(factors: Seq<Seq<Key>>) -> Seq<Seq<Key>>
    decreases factors.len(),
{
    if factors.len() == 0 {
        seq![Seq::<Key>::empty()]
    } else {
        product_with(factors[0], product_spec(factors.drop_first()))
    }
}

/// The product of the factor sizes, i.e. how many combinations the
/// Cartesian product holds.
pub open spec fn factor_count(factors: Seq<Seq<Key>>) -> nat
    decreases factors.len(),
{
    if factors.len() == 0 {
        1
    } else {
        factors[0].len() * factor_count(factors.drop_first())
    }
}

proof fn lemma_product_with_len(first: Seq<Key>, rest: Seq<Seq<Key>>)
    ensures
        product_with(first, rest).len() == first.len() * rest.len(),
    decreases first.len(),
{
    if first.len() > 0 {
        lemma_product_with_len(first.drop_last(), rest);
        assert((first.len() - 1) * rest.len() + rest.len() == first.len() * rest.len())
            by (nonlinear_arith);
    }
}

/// The Cartesian product has exactly one combination per way of picking
/// one element from each factor.
pub proof fn lemma_product_len(factors: Seq<Seq<Key>>)
    ensures
        product_spec(factors).len() == factor_count(factors),
    decreases factors.len(),
{
    if factors.len() > 0 {
        lemma_product_len(factors.drop_first());
        lemma_product_with_len(factors[0], product_spec(factors.drop_first()));
    }
}

/// Does this key combination contain `k`?
pub fn combo_contains(combo: &Vec<Key>, k: Key) -> (r: bool)
    ensures
        r == combo@.contains(k),
{
    let mut i: usize = 0;
    while i < combo.len()
        invariant
            i <= combo@.len(),
            forall|j: int| 0 <= j < i ==> combo@[j] != k,
        decreases combo@.len() - i,
    {
        if combo[i] == k {
            return true;
        }
        i += 1;
    }
    false
}

/// Build `join_key(k, combo)` as a fresh vector.
fn joined(k: Key, combo: &Vec<Key>) -> (r: Vec<Key>)
    ensures
        r@ == join_key(k, combo@),
{
    let mut r: Vec<Key> = Vec::new();
    if !combo_contains(combo, k) {
        r.push(k);
    }
    let mut i: usize = 0;
    while i < combo.len()
        invariant
            i <= combo@.len(),
            r@ == (if combo@.contains(k) {
                combo@.subrange(0, i as int)
            } else {
                seq![k] + combo@.subrange(0, i as int)
            }),
        decreases combo@.len() - i,
    {
        r.push(combo[i]);
        proof {
            assert(combo@.subrange(0, i + 1 as int)
                =~= combo@.subrange(0, i as int).push(combo@[i as int]));
        }
        i += 1;
    }
    proof {
        assert(combo@.subrange(0, combo@.len() as int) =~= combo@);
    }
    r
}

/// The views of a vector of key combinations.
pub open spec fn combo_views(v: Seq<Vec<Key>>) -> Seq<Seq<Key>> {
    v.map_values(|c: Vec<Key>| c@)
}

/// Unrolling `product_with` from the front: the block of combinations for
/// one more element of the factor is appended at the end.
proof fn lemma_product_with_step(first: Seq<Key>, rest: Seq<Seq<Key>>, j: int)
    requires
        0 <= j < first.len(),
    ensures
        product_with(first.subrange(0, j + 1), rest) == product_with(first.subrange(0, j), rest)
            + rest.map_values(|c: Seq<Key>| join_key(first[j], c)),
{
    let pre = first.subrange(0, j + 1);
    assert(pre.drop_last() =~= first.subrange(0, j));
    assert(pre.last() == first[j]);
}

/// The Cartesian product of the factors `factors[from..]`, eagerly.
fn product_from(factors: &Vec<Vec<Key>>, from: usize) -> (r: Vec<Vec<Key>>)
    requires
        from <= factors@.len(),
    ensures
        combo_views(r@) == product_spec(combo_views(factors@).skip(from as int)),
    decreases factors@.len() - from,
{
    let ghost tail = combo_views(factors@).skip(from as int);
    if from == factors.len() {
        let mut r: Vec<Vec<Key>> = Vec::new();
        r.push(Vec::new());
        proof {
            assert(tail =~= Seq::<Seq<Key>>::empty());
            assert(combo_views(r@) =~= seq![Seq::<Key>::empty()]);
        }
        return r;
    }
    let rest = product_from(factors, from + 1);
    let ghost rest_views = product_spec(combo_views(factors@).skip(from as int + 1));
    let first = &factors[from];
    let mut out: Vec<Vec<Key>> = Vec::new();
    proof {
        assert(first@.subrange(0, 0) =~= Seq::<Key>::empty());
        assert(combo_views(out@) =~= product_with(first@.subrange(0, 0), rest_views));
    }
    let mut j: usize = 0;
    while j < first.len()
        invariant
            j <= first@.len(),
            first@ == factors@[from as int]@,
            combo_views(rest@) == rest_views,
            combo_views(out@) == product_with(first@.subrange(0, j as int), rest_views),
        decreases first@.len() - j,
    {
        let k = first[j];
        let ghost block = rest_views.map_values(|c: Seq<Key>| join_key(k, c));
        let ghost done = product_with(first@.subrange(0, j as int), rest_views);
        let mut m: usize = 0;
        while m < rest.len()
            invariant
                m <= rest@.len(),
                j < first@.len(),
                k == first@[j as int],
                combo_views(rest@) == rest_views,
                block == rest_views.map_values(|c: Seq<Key>| join_key(k, c)),
                done == product_with(first@.subrange(0, j as int), rest_views),
                combo_views(out@) == done + block.subrange(0, m as int),
            decreases rest@.len() - m,
        {
            let ghost out_pre = out@;
            out.push(joined(k, &rest[m]));
            proof {
                assert(combo_views(rest@)[m as int] == rest@[m as int]@);
                assert(block[m as int] == join_key(k, rest_views[m as int]));
                assert(combo_views(out@) =~= combo_views(out_pre).push(join_key(
                    k,
                    rest_views[m as int],
                )));
                assert(done + block.subrange(0, m as int + 1) =~= (done + block.subrange(
                    0,
                    m as int,
                )).push(block[m as int]));
            }
            m += 1;
        }
        proof {
            lemma_product_with_step(first@, rest_views, j as int);
            assert(block.subrange(0, block.len() as int) =~= block);
            assert(combo_views(out@) =~= product_with(first@.subrange(0, j as int + 1), rest_views));
        }
        j += 1;
    }
    proof {
        assert(first@.subrange(0, first@.len() as int) =~= first@);
        assert(tail[0] == first@);
        assert(tail.drop_first() =~= combo_views(factors@).skip(from as int + 1));
        assert(product_spec(tail) == product_with(first@, rest_views));
    }
    out
}

/// The Cartesian product of a list of key-set factors; the product of no
/// factors is the single empty combination.
pub fn cartesian_product(keycodes: &Vec<Vec<Key>>) -> (r: Vec<Vec<Key>>)
    ensures
        combo_views(r@) == product_spec(combo_views(keycodes@)),
{
    let r = product_from(keycodes, 0);
    proof {
        assert(combo_views(keycodes@).skip(0) =~= combo_views(keycodes@));
    }
    r
}

/// The key-set factor a modifier role contributes to the product.
pub open spec fn modifier_factor_spec(m: Modifier) -> Seq<Key> {
    match map_modifier_spec(m) {
        (base, None) => seq![base],
        (base, Some(second)) => seq![base, second],
    }
}

/// Resolve a modifier role to its factor of alternative physical keys.
pub fn modifier_factor(m: Modifier) -> (r: Vec<Key>)
    ensures
        r@ == modifier_factor_spec(m),
{
    let (base, second) = map_modifier(m);
    let mut r: Vec<Key> = Vec::new();
    r.push(base);
    match second {
        Some(s) => {
            r.push(s);
            proof {
                assert(r@ =~= modifier_factor_spec(m));
            }
        },
        None => {
            proof {
                assert(r@ =~= modifier_factor_spec(m));
            }
        },
    }
    r
}

/// The full factor list of a shortcut: one factor per modifier role, and
/// the primary key's singleton factor last.
pub open spec fn shortcut_factors(key: Key, modifiers: Seq<Modifier>) -> Seq<Seq<Key>> {
    modifiers.map_values(|m: Modifier| modifier_factor_spec(m)) + seq![seq![key]]
}

/// The key combinations a shortcut stands for.
pub open spec fn expand_spec(key: Key, modifiers: Seq<Modifier>) -> Seq<Seq<Key>> {
    product_spec(shortcut_factors(key, modifiers))
}

/// The number of combinations a modifier list produces: the product of
/// each role's key-set cardinality.
pub open spec fn combination_count(modifiers: Seq<Modifier>) -> nat
    decreases modifiers.len(),
{
    if modifiers.len() == 0 {
        1
    } else {
        modifier_cardinality(modifiers[0]) * combination_count(modifiers.drop_first())
    }
}

proof fn lemma_factor_count_is_combination_count(key: Key, modifiers: Seq<Modifier>)
    ensures
        factor_count(shortcut_factors(key, modifiers)) == combination_count(modifiers),
    decreases modifiers.len(),
{
    let factors = shortcut_factors(key, modifiers);
    if modifiers.len() == 0 {
        assert(factors =~= seq![seq![key]]);
        assert(factors.drop_first() =~= Seq::<Seq<Key>>::empty());
        assert(factor_count(factors.drop_first()) == 1);
        assert(factors[0].len() == 1);
        assert(factor_count(factors) == 1 * factor_count(factors.drop_first()));
    } else {
        lemma_factor_count_is_combination_count(key, modifiers.drop_first());
        assert(factors.drop_first() =~= shortcut_factors(key, modifiers.drop_first()));
        assert(factors[0] == modifier_factor_spec(modifiers[0]));
        assert(modifier_factor_spec(modifiers[0]).len() == modifier_cardinality(modifiers[0]));
        assert(factor_count(factors) == modifier_cardinality(modifiers[0]) * combination_count(
            modifiers.drop_first(),
        ));
    }
}

/// Compiling a shortcut is a pure function of the key and modifier list:
/// any two compilations of the same pair agree, and the number of compiled
/// combinations is the product of the modifier cardinalities (times one
/// for the primary key).
pub proof fn lemma_compile_pure(r1: Seq<Seq<Key>>, r2: Seq<Seq<Key>>, key: Key, modifiers: Seq<
    Modifier,
>)
    requires
        r1 == expand_spec(key, modifiers),
        r2 == expand_spec(key, modifiers),
    ensures
        r1 == r2,
        r1.len() == combination_count(modifiers),
{
    lemma_product_len(shortcut_factors(key, modifiers));
    lemma_factor_count_is_combination_count(key, modifiers);
}

/// The key-set views of a sequence of compiled bindings.
pub open spec fn binding_views(s: Seq<CompiledBinding>) -> Seq<Seq<Key>> {
    s.map_values(|b: CompiledBinding| b.keys@)
}

/// Expand one shortcut into its compiled bindings: one per combination of
/// the modifier alternatives, all sharing `action`.
pub fn expand_combinations(key: Key, modifiers: &Vec<Modifier>, action: Action) -> (r: Vec<
    CompiledBinding,
>)
    ensures
        binding_views(r@) == expand_spec(key, modifiers@),
        forall|i: int| 0 <= i < r@.len() ==> r@[i].action == action,
        r@.len() == combination_count(modifiers@),
{
    let mut factors: Vec<Vec<Key>> = Vec::new();
    let ghost mod_factors = modifiers@.map_values(|m: Modifier| modifier_factor_spec(m));
    let mut i: usize = 0;
    while i < modifiers.len()
        invariant
            i <= modifiers@.len(),
            mod_factors == modifiers@.map_values(|m: Modifier| modifier_factor_spec(m)),
            combo_views(factors@) == mod_factors.subrange(0, i as int),
        decreases modifiers@.len() - i,
    {
        let ghost factors_pre = factors@;
        factors.push(modifier_factor(modifiers[i]));
        proof {
            assert(mod_factors[i as int] == modifier_factor_spec(modifiers@[i as int]));
            assert(combo_views(factors@) =~= combo_views(factors_pre).push(
                mod_factors[i as int],
            ));
            assert(mod_factors.subrange(0, i as int + 1) =~= mod_factors.subrange(0, i as int).push(
                mod_factors[i as int],
            ));
        }
        i += 1;
    }
    let mut key_factor: Vec<Key> = Vec::new();
    key_factor.push(key);
    let ghost factors_pre = factors@;
    factors.push(key_factor);
    proof {
        assert(mod_factors.subrange(0, modifiers@.len() as int) =~= mod_factors);
        assert(combo_views(factors@) =~= combo_views(factors_pre).push(seq![key]));
        assert(combo_views(factors@) =~= shortcut_factors(key, modifiers@));
    }
    let combos = cartesian_product(&factors);
    let mut r: Vec<CompiledBinding> = Vec::new();
    let mut j: usize = 0;
    while j < combos.len()
        invariant
            j <= combos@.len(),
            combo_views(combos@) == expand_spec(key, modifiers@),
            binding_views(r@) == combo_views(combos@).subrange(0, j as int),
            forall|m: int| 0 <= m < r@.len() ==> r@[m].action == action,
        decreases combos@.len() - j,
    {
        let mut keys: Vec<Key> = Vec::new();
        let mut m: usize = 0;
        let combo = &combos[j];
        while m < combo.len()
            invariant
                m <= combo@.len(),
                combo@ == combos@[j as int]@,
                keys@ == combo@.subrange(0, m as int),
            decreases combo@.len() - m,
        {
            keys.push(combo[m]);
            proof {
                assert(combo@.subrange(0, m as int + 1) =~= combo@.subrange(0, m as int).push(
                    combo@[m as int],
                ));
            }
            m += 1;
        }
        proof {
            assert(combo@.subrange(0, combo@.len() as int) =~= combo@);
        }
        let ghost r_pre = r@;
        r.push(CompiledBinding { keys, action });
        proof {
            assert(combo_views(combos@)[j as int] == combos@[j as int]@);
            assert(binding_views(r@) =~= binding_views(r_pre).push(combos@[j as int]@));
            assert(combo_views(combos@).subrange(0, j as int + 1) =~= combo_views(
                combos@,
            ).subrange(0, j as int).push(combo_views(combos@)[j as int]));
        }
        j += 1;
    }
    proof {
        assert(combo_views(combos@).subrange(0, combos@.len() as int) =~= combo_views(combos@));
        lemma_compile_pure(binding_views(r@), expand_spec(key, modifiers@), key, modifiers@);
    }
    r
}

} // verus!
