//! The template model: an immutable description of a batch job, its prompt
//! pool and modifier pool, and the validation that precedes any work.
use vstd::prelude::*;

use crate::params::{spec_combine, MILLI_SCALE, ParamsView, PromptData};
use crate::text::{get_safe_filename, spec_safe_filename};
use crate::BatchError;

verus! {

/// A prompt variant with a selection weight in thousandths; the weights of
/// one weighted pool entry are declared to sum to `MILLI_SCALE`.
#[derive(Debug, PartialEq)]
pub struct WeightedPrompt {
    /// Prompt text to use.
    pub prompt: String,
    /// Weight in thousandths; absent means `MILLI_SCALE` (certainty).
    pub chance: Option<u32>,
}

/// One entry of the prompt pool; selecting it resolves it to one text
/// fragment.
#[derive(Debug, PartialEq)]
pub enum Prompts {
    /// A fixed fragment.
    Single(String),
    /// Several fragments; one is chosen uniformly at random.
    Multiple(Vec<String>),
    /// Several fragments with declared weights; one is chosen with
    /// probability proportional to its weight.
    MultipleWeighted(Vec<WeightedPrompt>),
}

/// One fragment or several, as a modifier's negative activator.
#[derive(Debug, PartialEq)]
pub enum OneToManyPrompts {
    One(String),
    Many(Vec<String>),
}

/// A conditionally applied prompt fragment: eligible only when its positive
/// activator (if any) already occurs in the resolved positive prompt and no
/// fragment of its negative activator (if any) does; once chosen, applied
/// with its own probability.
#[derive(Debug, PartialEq)]
pub struct PromptModifer {
    /// Fragment appended via the composition rule when the modifier applies.
    pub prompt: String,
    /// Application probability in thousandths; absent means always.
    pub chance: Option<u32>,
    /// Fragment that must already occur in the resolved positive prompt.
    pub if_activator: Option<String>,
    /// Fragment(s) none of which may occur in the resolved positive prompt.
    pub if_not_activator: Option<OneToManyPrompts>,
}

/// A batch job: base parameters, a prompt pool, an optional modifier pool,
/// and how many images to produce.
#[derive(Debug)]
pub struct BatchTemplate {
    /// Short name, used in the file names of logs written by runs.
    pub name: String,
    /// Longer, detailed description.
    pub description: Option<String>,
    /// Generation service URL override.
    pub api_url: Option<String>,
    /// Parameter record every image starts from.
    pub base_prompt: PromptData,
    /// Number of images to generate; defaults to the pool size and must not
    /// exceed it.
    pub count: Option<usize>,
    /// Whether the service should keep copies of the images, default false.
    pub save_images: Option<bool>,
    /// Whether the service should run face restoration, default false.
    pub restore_faces: Option<bool>,
    /// The ordered pool of prompt variants to pick from.
    pub prompts: Vec<Prompts>,
    /// Modifiers considered for each generated item.
    pub modifiers: Option<Vec<PromptModifer>>,
}

impl WeightedPrompt {
    /// Declared weight in thousandths, `MILLI_SCALE` when none is given.
    pub open spec fn spec_probability_milli(&self) -> u32 {
        match self.chance {
            Option::None => MILLI_SCALE,
            Option::Some(c) => c,
        }
    }

    /// Executable form of `spec_probability_milli`.
    pub fn probability_milli(&self) -> (r: u32)
        ensures
            r == self.spec_probability_milli(),
    {
        match self.chance {
            Option::None => MILLI_SCALE,
            Option::Some(c) => c,
        }
    }
}

impl PromptModifer {
    /// Application probability in thousandths, `MILLI_SCALE` when none is
    /// given: a modifier without a declared chance always applies.
    pub open spec fn spec_chance_milli(&self) -> u32 {
        match self.chance {
            Option::None => MILLI_SCALE,
            Option::Some(c) => c,
        }
    }

    /// Executable form of `spec_chance_milli`.
    pub fn chance_milli(&self) -> (r: u32)
        ensures
            r == self.spec_chance_milli(),
    {
        match self.chance {
            Option::None => MILLI_SCALE,
            Option::Some(c) => c,
        }
    }
}

/// Sum of the declared weights of a weighted pool entry.
pub open spec fn weights_sum(v: Seq<WeightedPrompt>) -> int
    decreases v.len(),
{
    if v.len() == 0 {
        0
    } else {
        weights_sum(v.drop_last()) + v.last().spec_probability_milli()
    }
}

/// A pool entry the selection engine can always resolve: multiple-choice
/// lists are non-empty, and declared weights sum to exactly `MILLI_SCALE`.
/// A template whose weights do not form a distribution is rejected before
/// any work rather than silently renormalized.
pub open spec fn entry_well_formed(e: Prompts) -> bool {
    match e {
        Prompts::Single(_) => true,
        Prompts::Multiple(v) => v@.len() > 0,
        Prompts::MultipleWeighted(v) => weights_sum(v@) == MILLI_SCALE,
    }
}

impl BatchTemplate {
    /// How many images the template asks for: its declared count, or the
    /// whole pool when none is declared.
    pub open spec fn spec_count(&self) -> int {
        match self.count {
            Option::None => self.prompts@.len() as int,
            Option::Some(c) => c as int,
        }
    }

    /// Executable form of `spec_count`.
    pub fn effective_count(&self) -> (r: usize)
        ensures
            r == self.spec_count(),
    {
        match self.count {
            Option::None => self.prompts.len(),
            Option::Some(c) => c,
        }
    }

    /// Every pool entry can be resolved by the selection engine.
    pub open spec fn pool_well_formed(&self) -> bool {
        forall|i: int|
            0 <= i < self.prompts@.len() ==> entry_well_formed(#[trigger] self.prompts@[i])
    }

    /// Executable check of `pool_well_formed`, for callers that receive a
    /// template from outside.
    pub fn is_pool_well_formed(&self) -> (r: bool)
        ensures
            r == self.pool_well_formed(),
    {
        let n = self.prompts.len();
        let mut i: usize = 0;
        while i < n
            invariant
                n == self.prompts@.len(),
                i <= n,
                forall|k: int| 0 <= k < i ==> entry_well_formed(#[trigger] self.prompts@[k]),
            decreases n - i,
        {
            let ok = match &self.prompts[i] {
                Prompts::Single(_) => true,
                Prompts::Multiple(v) => v.len() > 0,
                Prompts::MultipleWeighted(v) => weights_sum_is_scale(v),
            };
            if !ok {
                return false;
            }
            i = i + 1;
        }
        true
    }

    /// The check that precedes any work: the requested count must not exceed
    /// the pool size. No side effect happens before it.
    pub fn validate(&self) -> (r: Result<(), BatchError>)
        ensures
            r is Ok <==> self.spec_count() <= self.prompts@.len(),
            r matches Err(e) ==> (e matches BatchError::CountOverflow { count, pool }
                && count == self.spec_count() && pool == self.prompts@.len()),
    {
        let count = self.effective_count();
        if self.prompts.len() < count {
            Err(BatchError::CountOverflow { count, pool: self.prompts.len() })
        } else {
            Ok(())
        }
    }

    /// The template's full positive prompt for a chosen fragment: the base
    /// positive combined with the fragment.
    pub fn build_positive(&self, positive: &str) -> (r: String)
        ensures
            r@ == spec_combine(self.base_prompt.positive@, positive@),
    {
        crate::params::combine_prompts(self.base_prompt.positive.as_str(), positive)
    }

    /// A copy of the base parameter record whose positive prompt is built
    /// from the given fragment.
    pub fn copy_with_positive(&self, positive: &str) -> (r: PromptData)
        ensures
            r@ == self.base_prompt@.with_positive(
                spec_combine(self.base_prompt.positive@, positive@),
            ),
    {
        let mut data = self.base_prompt.clone();
        data.positive = self.build_positive(positive);
        proof {
            assert(data@ =~= self.base_prompt@.with_positive(
                spec_combine(self.base_prompt.positive@, positive@),
            ));
        }
        data
    }

    /// File name a written template gets: the sanitized name plus `.json`.
    pub fn safe_template_filename(&self) -> (r: String)
        ensures
            r@ == spec_safe_filename(self.name@) + ".json"@,
    {
        let mut f = get_safe_filename(self.name.as_str());
        f.append(".json");
        f
    }
}

/// A longer prefix never sums to less: weights are non-negative.
pub proof fn lemma_weights_sum_prefix_le(s: Seq<WeightedPrompt>, i: int)
    requires
        0 <= i <= s.len(),
    ensures
        weights_sum(s.subrange(0, i)) <= weights_sum(s),
    decreases s.len() - i,
{
    if i == s.len() {
        assert(s.subrange(0, i) =~= s);
    } else {
        assert(s.subrange(0, i + 1).drop_last() =~= s.subrange(0, i));
        lemma_weights_sum_prefix_le(s, i + 1);
    }
}

/// Do the declared weights of one weighted entry sum to exactly
/// `MILLI_SCALE`? Stops early once the running sum is already over.
pub fn weights_sum_is_scale(v: &Vec<WeightedPrompt>) -> (r: bool)
    ensures
        r == (weights_sum(v@) == MILLI_SCALE),
{
    let n = v.len();
    let mut sum: u64 = 0;
    let mut i: usize = 0;
    while i < n
        invariant
            n == v@.len(),
            i <= n,
            sum == weights_sum(v@.subrange(0, i as int)),
            sum <= MILLI_SCALE,
        decreases n - i,
    {
        proof {
            assert(v@.subrange(0, i + 1).drop_last() =~= v@.subrange(0, i as int));
            assert(v@.subrange(0, i + 1).last() == v@[i as int]);
        }
        sum = sum + v[i].probability_milli() as u64;
        if sum > MILLI_SCALE as u64 {
            proof {
                lemma_weights_sum_prefix_le(v@, i + 1);
            }
            return false;
        }
        i = i + 1;
    }
    proof {
        assert(v@.subrange(0, n as int) =~= v@);
    }
    sum == MILLI_SCALE as u64
}

} // verus!
