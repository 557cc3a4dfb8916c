//! The selection engine: pure decisions over a template plus a randomness
//! source. Sampling picks which pool entries a run uses, resolution turns one
//! entry into text, and modifier application appends at most one conditional
//! fragment. Randomness enters only through `rand_below`; every contract here
//! holds for every value it may return.
use vstd::prelude::*;
use vstd::pervasive::unreached;

use crate::params::{spec_combine, MILLI_SCALE, ParamsView, PromptData};
use crate::template::{
    entry_well_formed, weights_sum, BatchTemplate, OneToManyPrompts, PromptModifer, Prompts,
};
use crate::text::{contains_sub, str_contains};

verus! {

/// A uniformly random value in `[0, n)`.
/// Relies on rand's `thread_rng` and `Rng::gen_range` over the range `0..n`:
/// the result lies in the range, and the call panics only when the range is
/// empty, which the precondition excludes.
#[verifier::external_body]
fn rand_below(n: u64) -> (r: u64)
    requires
        n > 0,
    ensures
        r < n,
{
    rand::Rng::gen_range(&mut rand::thread_rng(), 0..n)
}

/// Which pool entries a run uses, as indices into the pool, in draw order:
/// sequentially the first `count` in declared order, otherwise `count`
/// distinct positions drawn at random without replacement.
pub fn sample_indices(n: usize, count: usize, sequential: bool) -> (r: Vec<usize>)
    requires
        count <= n,
    ensures
        r@.len() == count,
        forall|i: int| 0 <= i < count ==> #[trigger] r@[i] < n,
        forall|i: int, j: int| 0 <= i < j < count ==> r@[i] != r@[j],
        sequential ==> forall|i: int| 0 <= i < count ==> #[trigger] r@[i] == i,
{
    if sequential {
        let mut r: Vec<usize> = Vec::new();
        let mut i: usize = 0;
        while i < count
            invariant
                i <= count,
                r@.len() == i,
                forall|k: int| 0 <= k < i ==> #[trigger] r@[k] == k,
            decreases count - i,
        {
            r.push(i);
            i = i + 1;
        }
        r
    } else {
        // Partial Fisher-Yates shuffle over all positions: after `count`
        // rounds the prefix holds `count` distinct positions, each round's
        // choice uniform over the positions not yet taken.
        let mut idx: Vec<usize> = Vec::new();
        let mut i: usize = 0;
        while i < n
            invariant
                i <= n,
                idx@.len() == i,
                forall|k: int| 0 <= k < i ==> #[trigger] idx@[k] == k,
            decreases n - i,
        {
            idx.push(i);
            i = i + 1;
        }
        let mut i: usize = 0;
        while i < count
            invariant
                count <= n,
                i <= count,
                idx@.len() == n,
                forall|k: int| 0 <= k < n ==> #[trigger] idx@[k] < n,
                forall|k: int, l: int| 0 <= k < l < n ==> idx@[k] != idx@[l],
            decreases count - i,
        {
            let j = i + (rand_below((n - i) as u64) as usize);
            let a = idx[i];
            let b = idx[j];
            idx[i] = b;
            idx[j] = a;
            i = i + 1;
        }
        let mut r: Vec<usize> = Vec::new();
        let mut i: usize = 0;
        while i < count
            invariant
                count <= n,
                i <= count,
                r@.len() == i,
                idx@.len() == n,
                forall|k: int| 0 <= k < n ==> #[trigger] idx@[k] < n,
                forall|k: int, l: int| 0 <= k < l < n ==> idx@[k] != idx@[l],
                forall|k: int| 0 <= k < i ==> #[trigger] r@[k] == idx@[k],
            decreases count - i,
        {
            r.push(idx[i]);
            i = i + 1;
        }
        r
    }
}

/// `text` is an outcome selection can produce from the pool entry `e`: the
/// single fragment itself, any fragment of a multiple entry, or any
/// positively weighted fragment of a weighted entry.
pub open spec fn resolved_from(e: Prompts, text: Seq<char>) -> bool {
    match e {
        Prompts::Single(t) => text == t@,
        Prompts::Multiple(v) => exists|i: int|
            0 <= i < v@.len() && text == #[trigger] v@[i]@,
        Prompts::MultipleWeighted(v) => exists|i: int|
            0 <= i < v@.len() && text == #[trigger] v@[i].prompt@
                && v@[i].spec_probability_milli() > 0,
    }
}

/// Resolves one pool entry to one text fragment: a single entry to its text,
/// a multiple entry to a uniformly random element, a weighted entry by a
/// cumulative-distribution draw over the declared weights in declared order,
/// from a single uniform draw. A fragment of weight zero is never chosen.
pub fn resolve_entry(entry: &Prompts) -> (r: String)
    requires
        entry_well_formed(*entry),
    ensures
        resolved_from(*entry, r@),
{
    match entry {
        Prompts::Single(t) => t.clone(),
        Prompts::Multiple(v) => {
            let j = rand_below(v.len() as u64) as usize;
            v[j].clone()
        },
        Prompts::MultipleWeighted(v) => {
            let u = rand_below(MILLI_SCALE as u64);
            let n = v.len();
            let mut acc: u64 = 0;
            let mut i: usize = 0;
            while i < n
                invariant
                    *entry == Prompts::MultipleWeighted(*v),
                    n == v@.len(),
                    i <= n,
                    weights_sum(v@) == MILLI_SCALE,
                    u < MILLI_SCALE,
                    acc == weights_sum(v@.subrange(0, i as int)),
                    u >= acc,
                decreases n - i,
            {
                proof {
                    assert(v@.subrange(0, i + 1).drop_last() =~= v@.subrange(0, i as int));
                    assert(v@.subrange(0, i + 1).last() == v@[i as int]);
                    crate::template::lemma_weights_sum_prefix_le(v@, i + 1);
                }
                let w = v[i].probability_milli();
                if u < acc + w as u64 {
                    let r = v[i].prompt.clone();
                    proof {
                        let k = i as int;
                        assert(0 <= k < v@.len() && r@ == v@[k].prompt@
                            && v@[k].spec_probability_milli() > 0);
                        assert(*entry == Prompts::MultipleWeighted(*v));
                        assert(resolved_from(*entry, r@));
                    }
                    return r;
                }
                acc = acc + w as u64;
                i = i + 1;
            }
            proof {
                assert(v@.subrange(0, n as int) =~= v@);
                assert(false);
            }
            unreached()
        },
    }
}

/// None of the fragments occurs in the positive prompt.
pub open spec fn none_contained(positive: Seq<char>, fragments: Seq<String>) -> bool {
    forall|i: int|
        0 <= i < fragments.len() ==> !contains_sub(positive, #[trigger] fragments[i]@)
}

/// Whether the resolved positive prompt contains none of the fragments of a
/// modifier's negative activator.
pub open spec fn spec_passes_if_not(positive: Seq<char>, activator: OneToManyPrompts) -> bool {
    match activator {
        OneToManyPrompts::One(k) => !contains_sub(positive, k@),
        OneToManyPrompts::Many(ks) => none_contained(positive, ks@),
    }
}

/// The negative-activator test: true when no fragment of `activator` occurs
/// in the record's positive prompt.
pub fn filter_if_not(prompt: &PromptData, activator: &OneToManyPrompts) -> (r: bool)
    ensures
        r == spec_passes_if_not(prompt.positive@, *activator),
{
    match activator {
        OneToManyPrompts::One(k) => !str_contains(prompt.positive.as_str(), k.as_str()),
        OneToManyPrompts::Many(ks) => {
            let n = ks.len();
            let mut i: usize = 0;
            while i < n
                invariant
                    *activator == OneToManyPrompts::Many(*ks),
                    n == ks@.len(),
                    i <= n,
                    forall|k: int|
                        0 <= k < i ==> !contains_sub(prompt.positive@, #[trigger] ks@[k]@),
                decreases n - i,
            {
                if str_contains(prompt.positive.as_str(), ks[i].as_str()) {
                    proof {
                        assert(*activator == OneToManyPrompts::Many(*ks));
                        assert(!none_contained(prompt.positive@, ks@)) by {
                            assert(contains_sub(prompt.positive@, ks@[i as int]@));
                        }
                    }
                    return false;
                }
                i = i + 1;
            }
            true
        },
    }
}

/// A modifier is applicable to a resolved positive prompt exactly when its
/// positive activator (if any) occurs in the prompt and no fragment of its
/// negative activator (if any) does.
pub open spec fn modifier_applicable(m: PromptModifer, positive: Seq<char>) -> bool {
    (match m.if_activator {
        Option::None => true,
        Option::Some(a) => contains_sub(positive, a@),
    }) && (match m.if_not_activator {
        Option::None => true,
        Option::Some(act) => spec_passes_if_not(positive, act),
    })
}

/// Executable form of `modifier_applicable`.
pub fn is_applicable(m: &PromptModifer, prompt: &PromptData) -> (r: bool)
    ensures
        r == modifier_applicable(*m, prompt.positive@),
{
    let pos_ok = match &m.if_activator {
        Option::None => true,
        Option::Some(a) => str_contains(prompt.positive.as_str(), a.as_str()),
    };
    if !pos_ok {
        return false;
    }
    match &m.if_not_activator {
        Option::None => true,
        Option::Some(act) => filter_if_not(prompt, act),
    }
}

/// A modifier with a positive activator never applies to a record whose
/// resolved positive prompt lacks that activator fragment.
pub proof fn lemma_positive_activator_gates(m: PromptModifer, positive: Seq<char>)
    requires
        m.if_activator is Some,
        !contains_sub(positive, m.if_activator->0@),
    ensures
        !modifier_applicable(m, positive),
{
}

/// How `apply_modifiers` may change a record: either it is untouched, or
/// exactly one applicable modifier's fragment was appended to its positive
/// prompt through the composition rule.
pub open spec fn modifiers_outcome(
    mods: Seq<PromptModifer>,
    before: ParamsView,
    after: ParamsView,
) -> bool {
    after == before || exists|i: int|
        0 <= i < mods.len() && modifier_applicable(#[trigger] mods[i], before.positive)
            && after == before.with_positive(
            spec_combine(before.positive, mods[i].prompt@),
        )
}

/// Some modifier of the pool is applicable to the prompt.
pub open spec fn some_applicable(mods: Seq<PromptModifer>, positive: Seq<char>) -> bool {
    exists|i: int| 0 <= i < mods.len() && modifier_applicable(#[trigger] mods[i], positive)
}

/// Every applicable modifier of the pool applies with certainty.
pub open spec fn all_applicable_certain(mods: Seq<PromptModifer>, positive: Seq<char>) -> bool {
    forall|i: int|
        0 <= i < mods.len() && modifier_applicable(#[trigger] mods[i], positive)
            ==> mods[i].spec_chance_milli() >= MILLI_SCALE
}

/// Applies at most one modifier to a resolved record: the pool is filtered
/// to the applicable modifiers, one candidate is picked uniformly among them
/// (weights play no part in the pick), and a single uniform draw against the
/// candidate's own chance decides whether its fragment is appended. A record
/// no modifier is applicable to is returned unchanged; when some modifier is
/// applicable and every applicable one is certain, one of them is applied.
pub fn apply_modifiers(params: PromptData, modifiers: &Vec<PromptModifer>) -> (r: PromptData)
    ensures
        modifiers_outcome(modifiers@, params@, r@),
        !some_applicable(modifiers@, params@.positive) ==> r == params,
        some_applicable(modifiers@, params@.positive) && all_applicable_certain(
            modifiers@,
            params@.positive,
        ) ==> exists|i: int|
            0 <= i < modifiers@.len() && modifier_applicable(
                #[trigger] modifiers@[i],
                params@.positive,
            ) && r@ == params@.with_positive(spec_combine(params@.positive, modifiers@[i].prompt@)),
{
    let n = modifiers.len();
    let mut applicable: Vec<usize> = Vec::new();
    let mut i: usize = 0;
    while i < n
        invariant
            n == modifiers@.len(),
            i <= n,
            forall|k: int|
                0 <= k < applicable@.len() ==> #[trigger] applicable@[k] < i
                    && modifier_applicable(modifiers@[applicable@[k] as int], params.positive@),
            forall|k: int|
                0 <= k < i && modifier_applicable(#[trigger] modifiers@[k], params.positive@)
                    ==> applicable@.contains(k as usize),
        decreases n - i,
    {
        if is_applicable(&modifiers[i], &params) {
            let ghost prev = applicable@;
            applicable.push(i);
            proof {
                assert forall|k: usize| prev.contains(k) implies applicable@.contains(k) by {
                    let l = choose|l: int| 0 <= l < prev.len() && prev[l] == k;
                    assert(applicable@[l] == k);
                }
                assert(applicable@[applicable@.len() - 1] == i);
                assert(applicable@.contains(i));
            }
        }
        i = i + 1;
    }
    if applicable.len() == 0 {
        proof {
            if some_applicable(modifiers@, params@.positive) {
                let k = choose|k: int|
                    0 <= k < modifiers@.len() && modifier_applicable(
                        modifiers@[k],
                        params@.positive,
                    );
                assert(applicable@.contains(k as usize));
            }
        }
        return params;
    }
    let c = rand_below(applicable.len() as u64) as usize;
    let chosen = applicable[c];
    proof {
        assert(modifier_applicable(modifiers@[chosen as int], params@.positive));
    }
    let roll = rand_below(MILLI_SCALE as u64);
    if roll < modifiers[chosen].chance_milli() as u64 {
        let new_positive = crate::params::combine_prompts(
            params.positive.as_str(),
            modifiers[chosen].prompt.as_str(),
        );
        let mut out = params;
        out.positive = new_positive;
        proof {
            assert(out@ =~= with_fragment_applied(params@, modifiers@[chosen as int].prompt@));
        }
        out
    } else {
        proof {
            // The roll failed, so the chosen applicable modifier's chance is
            // below certainty.
            assert(modifiers@[chosen as int].spec_chance_milli() < MILLI_SCALE);
            assert(!all_applicable_certain(modifiers@, params@.positive));
        }
        params
    }
}

/// The record `before` with one modifier fragment appended to its positive
/// prompt.
pub open spec fn with_fragment_applied(before: ParamsView, fragment: Seq<char>) -> ParamsView {
    before.with_positive(spec_combine(before.positive, fragment))
}

impl BatchTemplate {
    /// Builds the full planned parameter record for one sampled pool entry:
    /// resolves the entry to text, composes the positive prompt, applies at
    /// most one modifier, and assigns a provisional planning seed, which
    /// generation later overwrites with the authoritative one.
    pub fn generate_log_for_prompt(&self, prompt: &Prompts) -> (r: PromptData)
        requires
            entry_well_formed(*prompt),
        ensures
            planned_from(*self, *prompt, r@),
    {
        let text = resolve_entry(prompt);
        let mut data = self.copy_with_positive(text.as_str());
        let ghost mid = data@;
        match &self.modifiers {
            Option::None => {},
            Option::Some(mods) => {
                data = apply_modifiers(data, mods);
            },
        }
        let ghost modified = data@;
        let seed = rand_below(0x1_0000_0000) as i64;
        data.seed = Some(seed);
        proof {
            assert(modifiers_outcome(spec_modifiers(*self), mid, modified)) by {
                if self.modifiers is None {
                    assert(modified == mid);
                }
            }
            assert(data@.with_seed(mid.seed) =~= modified) by {
                if modified != mid {
                    assert(modified.seed == mid.seed);
                }
            }
            assert(planned_from(*self, *prompt, data@));
        }
        data
    }
}

/// The template's modifier pool, empty when none is declared.
pub open spec fn spec_modifiers(t: BatchTemplate) -> Seq<PromptModifer> {
    match t.modifiers {
        Option::None => Seq::empty(),
        Option::Some(v) => v@,
    }
}

/// `r` is a record the planning step can produce from template `t` and pool
/// entry `e`: its positive prompt is the base positive combined with a text
/// the entry resolves to, then at most one applicable modifier; every other
/// field but the seed is the base record's; the seed is a provisional value
/// in `[0, 2^32)`.
pub open spec fn planned_from(t: BatchTemplate, e: Prompts, r: ParamsView) -> bool {
    exists|text: Seq<char>|
        #[trigger] resolved_from(e, text) && modifiers_outcome(
            spec_modifiers(t),
            t.base_prompt@.with_positive(spec_combine(t.base_prompt.positive@, text)),
            r.with_seed(t.base_prompt.seed),
        ) && (r.seed matches Some(s) && 0 <= s < 0x1_0000_0000)
}

} // verus!
