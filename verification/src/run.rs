//! The run orchestrator: validate, sample, build the full plan, then hand
//! one item at a time to the generation boundary. The whole plan is a log
//! value before any image exists, so even a run that fails at once leaves a
//! complete description of every intended image — the precondition resume
//! relies on. The explicit state machine names the phases and what may
//! follow each.
use vstd::prelude::*;

use crate::log::{last_index_of, spec_image_index, spec_parse_index, BatchLog};
use crate::select::planned_from;
use crate::template::BatchTemplate;
use crate::text::{contains_sub, dec2_u64, dec_u64, digits_value, is_digit, lemma_dec_u64_digits,
    lemma_dec_u64_value, lemma_digits_value_leading_zero, str_contains, append_dec2_u64,
    append_dec_u64};
use crate::{BatchError, GenerationErrorKind};

verus! {

/// What a completed run reports: how many images were created and where the
/// log lives.
pub struct TemplateRunResults {
    pub images_created: usize,
    pub log_file: String,
}

/// The phases of one run, in order; `Failed` is reachable from any phase.
#[derive(Debug, Clone, Copy, PartialEq, Eq, Structural)]
pub enum RunState {
    /// Checking the template before any side effect.
    Validating,
    /// Picking which pool entries the run uses.
    Sampling,
    /// The full plan is built and persisted; nothing is generated yet.
    LogInitialized,
    /// Generating the image at `next`; all earlier indices are done.
    Generating { next: usize },
    /// Every planned image exists (or a dry run stopped after the plan).
    Completed,
    /// The run aborted; the log keeps its last persisted state.
    Failed,
}

/// What the world reports back to the orchestrator between phases.
#[derive(Debug, Clone, Copy, PartialEq, Eq, Structural)]
pub enum RunEvent {
    /// Validation passed.
    ValidationPassed,
    /// Validation rejected the template; no side effect has happened.
    ValidationFailed,
    /// The pool was sampled and the plan records were built.
    Sampled,
    /// The planned log was persisted; a dry run stops here.
    LogWritten { dry_run: bool },
    /// The current image was generated and its seed recorded.
    ImageGenerated,
    /// Generation failed; the run aborts as a whole.
    ImageFailed,
}

impl RunState {
    /// Which events may arrive in this state.
    pub open spec fn accepts(self, ev: RunEvent) -> bool {
        match (self, ev) {
            (RunState::Validating, RunEvent::ValidationPassed) => true,
            (RunState::Validating, RunEvent::ValidationFailed) => true,
            (RunState::Sampling, RunEvent::Sampled) => true,
            (RunState::LogInitialized, RunEvent::LogWritten { .. }) => true,
            (RunState::Generating { .. }, RunEvent::ImageGenerated) => true,
            (RunState::Generating { .. }, RunEvent::ImageFailed) => true,
            _ => false,
        }
    }

    /// The phase that follows `self` on `ev`, for a plan of `total` images.
    pub open spec fn spec_step(self, ev: RunEvent, total: usize) -> RunState {
        match (self, ev) {
            (RunState::Validating, RunEvent::ValidationPassed) => RunState::Sampling,
            (RunState::Validating, RunEvent::ValidationFailed) => RunState::Failed,
            (RunState::Sampling, RunEvent::Sampled) => RunState::LogInitialized,
            (RunState::LogInitialized, RunEvent::LogWritten { dry_run }) => if dry_run || total
                == 0 {
                RunState::Completed
            } else {
                RunState::Generating { next: 0 }
            },
            (RunState::Generating { next }, RunEvent::ImageGenerated) => if next + 1 >= total {
                RunState::Completed
            } else {
                RunState::Generating { next: (next + 1) as usize }
            },
            (RunState::Generating { .. }, RunEvent::ImageFailed) => RunState::Failed,
            _ => RunState::Failed,
        }
    }

    /// A state that fits a plan of `total` images: a generating index always
    /// lies inside the plan.
    pub open spec fn wf(self, total: usize) -> bool {
        match self {
            RunState::Generating { next } => next < total,
            _ => true,
        }
    }

    /// Advances the orchestrator one phase. Generation proceeds in plan
    /// order: from `Generating(i)` a success moves to `i + 1` or completes
    /// the run, a failure aborts it; a dry run completes as soon as the plan
    /// is written. An event that does not fit the phase fails the run.
    pub fn step(self, ev: RunEvent, total: usize) -> (r: RunState)
        ensures
            r == self.spec_step(ev, total),
            self.accepts(ev) && self.wf(total) ==> r.wf(total),
    {
        match (self, ev) {
            (RunState::Validating, RunEvent::ValidationPassed) => RunState::Sampling,
            (RunState::Validating, RunEvent::ValidationFailed) => RunState::Failed,
            (RunState::Sampling, RunEvent::Sampled) => RunState::LogInitialized,
            (RunState::LogInitialized, RunEvent::LogWritten { dry_run }) => if dry_run || total
                == 0 {
                RunState::Completed
            } else {
                RunState::Generating { next: 0 }
            },
            (RunState::Generating { next }, RunEvent::ImageGenerated) => if next >= total || total
                - next <= 1 {
                RunState::Completed
            } else {
                RunState::Generating { next: next + 1 }
            },
            (RunState::Generating { .. }, RunEvent::ImageFailed) => RunState::Failed,
            _ => RunState::Failed,
        }
    }
}

/// `img` is a record planned from some entry of the template's pool.
pub open spec fn planned_from_pool(t: BatchTemplate, img: crate::params::ParamsView) -> bool {
    exists|p: int| 0 <= p < t.prompts@.len() && planned_from(t, #[trigger] t.prompts@[p], img)
}

impl BatchTemplate {
    /// Builds the complete plan of a run: validates the count, samples the
    /// pool (the first `count` entries in declared order when `sequential`,
    /// a random draw of `count` distinct entries otherwise), resolves every
    /// sampled entry into a full parameter record, and binds the log to its
    /// stable timestamped path under `output_dir`. No image generation
    /// happens here; a failed validation leaves nothing behind.
    pub fn plan_run(&self, sequential: bool, output_dir: &str) -> (r: Result<
        BatchLog,
        BatchError,
    >)
        requires
            self.pool_well_formed(),
        ensures
            r is Ok <==> self.spec_count() <= self.prompts@.len(),
            r matches Err(e) ==> (e matches BatchError::CountOverflow { count, pool }
                && count == self.spec_count() && pool == self.prompts@.len()),
            r matches Ok(log) ==> log.template@ == self.name@ && log@.images.len()
                == self.spec_count() && (forall|i: int|
                0 <= i < log@.images.len() ==> planned_from_pool(
                    *self,
                    #[trigger] log@.images[i],
                )) && (sequential ==> forall|i: int|
                0 <= i < log@.images.len() ==> planned_from(
                    *self,
                    self.prompts@[i],
                    #[trigger] log@.images[i],
                )),
    {
        let count = self.effective_count();
        if let Err(e) = self.validate() {
            return Err(e);
        }
        let picks = crate::select::sample_indices(self.prompts.len(), count, sequential);
        let mut log = BatchLog::new(self.name.as_str(), output_dir);
        let mut k: usize = 0;
        while k < count
            invariant
                self.pool_well_formed(),
                count == self.spec_count(),
                count <= self.prompts@.len(),
                k <= count,
                picks@.len() == count,
                forall|i: int| 0 <= i < count ==> #[trigger] picks@[i] < self.prompts@.len(),
                sequential ==> forall|i: int| 0 <= i < count ==> #[trigger] picks@[i] == i,
                log.template@ == self.name@,
                log@.images.len() == k,
                forall|i: int|
                    0 <= i < k ==> planned_from_pool(*self, #[trigger] log@.images[i]),
                sequential ==> forall|i: int|
                    0 <= i < k ==> planned_from(
                        *self,
                        self.prompts@[i],
                        #[trigger] log@.images[i],
                    ),
            decreases count - k,
        {
            let pick = picks[k];
            let data = self.generate_log_for_prompt(&self.prompts[pick]);
            let ghost prev_images = log@.images;
            log.push_image(data);
            proof {
                assert(log@.images =~= prev_images.push(data@));
                assert(planned_from(*self, self.prompts@[pick as int], log@.images[k as int]));
                assert(planned_from_pool(*self, log@.images[k as int]));
            }
            k = k + 1;
        }
        Ok(log)
    }
}

/// How a generation-request failure is disambiguated from the response body:
/// the service names an unknown sampler or an unknown upscaler in fixed
/// phrases; anything else stays unclassified.
pub open spec fn spec_classify_txt2img_error(body: Seq<char>) -> GenerationErrorKind {
    if contains_sub(body, "Sampler not found"@) {
        GenerationErrorKind::SamplerNotFound
    } else if contains_sub(body, "could not find upscaler named"@) {
        GenerationErrorKind::UpscalerNotFound
    } else {
        GenerationErrorKind::Unclassified
    }
}

/// Classifies a failed generation request by its response body.
pub fn classify_txt2img_error(body: &str) -> (r: GenerationErrorKind)
    ensures
        r == spec_classify_txt2img_error(body@),
{
    if str_contains(body, "Sampler not found") {
        GenerationErrorKind::SamplerNotFound
    } else if str_contains(body, "could not find upscaler named") {
        GenerationErrorKind::UpscalerNotFound
    } else {
        GenerationErrorKind::Unclassified
    }
}

/// Whether a configuration-change failure says the requested model
/// checkpoint is unknown: the body quotes the model inside a fixed phrase.
pub fn is_model_not_found(body: &str, model: &str) -> (r: bool)
    ensures
        r == contains_sub(body@, "model '"@ + model@ + "' not found"@),
{
    let mut needle = String::from_str("model '");
    needle.append(model);
    needle.append("' not found");
    str_contains(body, needle.as_str())
}

/// The file name the image at `index` is written under: the zero-padded
/// index and `.png` for the primary image, with `-<n>` inserted for the
/// `n`-th secondary image of a multi-image response.
pub open spec fn spec_image_filename(index: nat, sub: nat) -> Seq<char> {
    if sub == 0 {
        dec2_u64(index) + ".png"@
    } else {
        dec2_u64(index) + "-"@ + dec_u64(sub) + ".png"@
    }
}

/// Builds the output file name for one produced image.
pub fn image_filename(index: usize, sub: usize) -> (r: String)
    ensures
        r@ == spec_image_filename(index as nat, sub as nat),
{
    let mut out = String::new();
    append_dec2_u64(&mut out, index as u64);
    if sub > 0 {
        out.append("-");
        append_dec_u64(&mut out, sub as u64);
    }
    out.append(".png");
    proof {
        assert(out@ =~= spec_image_filename(index as nat, sub as nat));
    }
    out
}





/// The primary image of index `i` is found again by the resume scan: its
/// file name denotes exactly index `i`. This ties generation's output naming
/// to the reconciliation that decides what is still missing.
/// In `<stem>.png` the last dot sits right after the stem, whatever the stem
/// holds.
proof fn lemma_last_dot_of_png_name(stem: Seq<char>)
    ensures
        last_index_of(stem + ".png"@, '.') == stem.len(),
        (stem + ".png"@)[stem.len() as int] == '.',
        (stem + ".png"@).subrange(stem.len() as int, (stem + ".png"@).len() as int) == ".png"@,
        (stem + ".png"@).subrange(0, stem.len() as int) == stem,
{
    reveal_strlit(".png");
    reveal_strlit(".pn");
    reveal_strlit(".p");
    reveal_strlit(".");
    let name = stem + ".png"@;
    let n3 = stem + ".pn"@;
    let n2 = stem + ".p"@;
    let n1 = stem + "."@;
    assert(name.last() == 'g');
    assert(name.drop_last() =~= n3);
    assert(n3.last() == 'n');
    assert(n3.drop_last() =~= n2);
    assert(n2.last() == 'p');
    assert(n2.drop_last() =~= n1);
    assert(n1.last() == '.');
    assert(last_index_of(name, '.') == last_index_of(n3, '.'));
    assert(last_index_of(n3, '.') == last_index_of(n2, '.'));
    assert(last_index_of(n2, '.') == last_index_of(n1, '.'));
    assert(last_index_of(n1, '.') == n1.len() - 1);
    assert(name.subrange(stem.len() as int, name.len() as int) =~= ".png"@);
    assert(name.subrange(0, stem.len() as int) =~= stem);
}

pub proof fn lemma_image_filename_roundtrip(index: usize)
    ensures
        spec_image_index(spec_image_filename(index as nat, 0)) == Some(index as int),
{
    let stem = dec2_u64(index as nat);
    let name = spec_image_filename(index as nat, 0);
    lemma_dec_u64_digits(index as nat);
    lemma_dec_u64_value(index as nat);
    if (index as nat) < 10 {
        lemma_digits_value_leading_zero(dec_u64(index as nat));
    }
    assert(forall|k: int| 0 <= k < stem.len() ==> is_digit(#[trigger] stem[k]));
    assert(digits_value(stem) == index);
    assert(stem.len() > 0);
    assert(name =~= stem + ".png"@);
    lemma_last_dot_of_png_name(stem);
    reveal_strlit(".png");
    assert(name[stem.len() as int] == '.');
    assert(exists|i: int| 0 <= i < name.len() && name[i] == '.');
    assert(last_index_of(name, '.') == stem.len());
    // The stem has no leading plus and every character is a digit, so it
    // parses back to the index.
    assert(stem[0] != '+') by {
        assert(is_digit(stem[0]));
    }
    assert(crate::log::stem_digits(stem) == stem);
    assert(digits_value(stem) <= usize::MAX);
    assert(spec_parse_index(stem) == Some(index as int));
}

/// A secondary image's file name (`<index>-<n>.png`) denotes no index: the
/// resume scan counts only primary images, as the log tracks only those.
pub proof fn lemma_secondary_filename_no_index(index: usize, sub: usize)
    requires
        sub > 0,
    ensures
        spec_image_index(spec_image_filename(index as nat, sub as nat)) is None,
{
    reveal_strlit("-");
    let head = dec2_u64(index as nat);
    let stem = head + "-"@ + dec_u64(sub as nat);
    let name = spec_image_filename(index as nat, sub as nat);
    assert(name =~= stem + ".png"@);
    lemma_last_dot_of_png_name(stem);
    reveal_strlit(".png");
    assert(spec_image_index(name) == spec_parse_index(stem)) by {
        assert(name[stem.len() as int] == '.');
        assert(exists|i: int| 0 <= i < name.len() && name[i] == '.');
        assert(last_index_of(name, '.') == stem.len());
    }
    // The first character is a digit, so the stem keeps all its characters,
    // and the dash inside it is no digit: the stem is no index.
    lemma_dec_u64_digits(index as nat);
    if (index as nat) < 10 {
        assert(is_digit(head[0])) by {
            crate::text::lemma_digit_char_val(0);
        }
    } else {
        assert(is_digit(head[0]));
    }
    assert(stem[0] == head[0]);
    assert(stem[0] != '+');
    assert(crate::log::stem_digits(stem) == stem);
    let k = head.len() as int;
    assert(stem[k] == '-') by {
        assert((head + "-"@)[k] == '-');
    }
    assert(!is_digit('-'));
    assert(!(forall|i: int| 0 <= i < stem.len() ==> is_digit(#[trigger] stem[i]))) by {
        assert(0 <= k < stem.len() && !is_digit(stem[k]));
    }
    assert(spec_parse_index(stem) is None);
}

} // verus!
