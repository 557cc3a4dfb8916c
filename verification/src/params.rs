//! The generation parameter record: everything one image is generated from,
//! plus the prompt-composition rule that builds positive prompts.
//!
//! The generation service works with fractional settings (guidance scale,
//! upscale factor, application chances). This crate keeps each of those as an
//! integer count of thousandths, so the logic around them stays verifiable;
//! the adapter converts at the boundary.
use vstd::prelude::*;

use crate::text::{trim_end_len, trimmed_end};

verus! {

/// Denominator of every fractional setting: a value of `1000` means `1.0`.
pub const MILLI_SCALE: u32 = 1000;

/// Hi-res fix: a secondary upscale pass run after the base generation.
#[derive(Debug, PartialEq)]
pub struct HiResSettings {
    /// Upscaler the service should use, e.g. "Latent".
    pub upscaler: String,
    /// Upscale factor in thousandths (2000 = double the resolution).
    pub upscale_by_milli: u32,
    /// Denoising strength in thousandths.
    pub denoising_milli: u32,
    /// Steps of the second pass.
    pub steps: u8,
}

/// Post-processing applied to the produced image bytes.
#[derive(Debug, PartialEq)]
pub enum PostProcesses {
    /// Resize the image by a factor, in thousandths.
    Resize { scale_by_milli: u32 },
}

/// One image's full generation parameters. An index-aligned list of these is
/// what a batch log records.
#[derive(Debug, PartialEq)]
pub struct PromptData {
    /// Positive prompt text.
    pub positive: String,
    /// Negative prompt text.
    pub negative: String,
    /// Model checkpoint identifier.
    pub model: String,
    /// Sampler name, e.g. "DPM 2M++ Karras".
    pub sampler: String,
    /// Sampling step count.
    pub steps: u32,
    /// Image width at generation time, before hi-res.
    pub width: u32,
    /// Image height at generation time, before hi-res.
    pub height: u32,
    /// Guidance (cfg) scale in thousandths.
    pub cfg_milli: u32,
    /// Clip-skip setting; the service defaults it to 1 when absent.
    pub clip_skip: Option<u8>,
    /// Seed: `None` asks the service for a fresh one; a run overwrites the
    /// planning placeholder with the authoritative seed the service reports.
    pub seed: Option<i64>,
    /// Optional hi-res fix pass.
    pub hires: Option<HiResSettings>,
    /// Optional post-processing of the produced image.
    pub post_process: Option<PostProcesses>,
}

/// Mathematical image of `HiResSettings`.
pub ghost struct HiResView {
    pub upscaler: Seq<char>,
    pub upscale_by_milli: u32,
    pub denoising_milli: u32,
    pub steps: u8,
}

/// Mathematical image of `PostProcesses`.
pub ghost enum PostView {
    Resize { scale_by_milli: u32 },
}

/// Mathematical image of `PromptData`: the same record over sequences and
/// plain values, what every contract in this crate speaks of.
pub ghost struct ParamsView {
    pub positive: Seq<char>,
    pub negative: Seq<char>,
    pub model: Seq<char>,
    pub sampler: Seq<char>,
    pub steps: u32,
    pub width: u32,
    pub height: u32,
    pub cfg_milli: u32,
    pub clip_skip: Option<u8>,
    pub seed: Option<i64>,
    pub hires: Option<HiResView>,
    pub post_process: Option<PostView>,
}

impl View for HiResSettings {
    type V = HiResView;

    open spec fn view(&self) -> HiResView {
        HiResView {
            upscaler: self.upscaler@,
            upscale_by_milli: self.upscale_by_milli,
            denoising_milli: self.denoising_milli,
            steps: self.steps,
        }
    }
}

impl View for PostProcesses {
    type V = PostView;

    open spec fn view(&self) -> PostView {
        match self {
            PostProcesses::Resize { scale_by_milli } => PostView::Resize {
                scale_by_milli: *scale_by_milli,
            },
        }
    }
}

/// The view of an optional hi-res setting.
pub open spec fn hires_view(h: Option<HiResSettings>) -> Option<HiResView> {
    match h {
        Option::None => Option::None,
        Option::Some(s) => Option::Some(s@),
    }
}

/// The view of an optional post-process setting.
pub open spec fn post_view(p: Option<PostProcesses>) -> Option<PostView> {
    match p {
        Option::None => Option::None,
        Option::Some(s) => Option::Some(s@),
    }
}

impl View for PromptData {
    type V = ParamsView;

    open spec fn view(&self) -> ParamsView {
        ParamsView {
            positive: self.positive@,
            negative: self.negative@,
            model: self.model@,
            sampler: self.sampler@,
            steps: self.steps,
            width: self.width,
            height: self.height,
            cfg_milli: self.cfg_milli,
            clip_skip: self.clip_skip,
            seed: self.seed,
            hires: hires_view(self.hires),
            post_process: post_view(self.post_process),
        }
    }
}

impl ParamsView {
    /// The same record with another positive prompt.
    pub open spec fn with_positive(self, positive: Seq<char>) -> ParamsView {
        ParamsView { positive, ..self }
    }

    /// The same record with another seed.
    pub open spec fn with_seed(self, seed: Option<i64>) -> ParamsView {
        ParamsView { seed, ..self }
    }
}

/// How positive prompt text is composed from a base and a fragment: the base
/// loses its trailing whitespace, gains a comma unless it already ends in
/// one, then a single space and the fragment. This is the sole composition
/// rule, applied left to right: base, chosen variant, at most one modifier.
pub open spec fn spec_combine(a: Seq<char>, b: Seq<char>) -> Seq<char> {
    let t = trimmed_end(a);
    if t.len() > 0 && t.last() == ',' {
        t + seq![' '] + b
    } else {
        t + seq![','] + seq![' '] + b
    }
}

impl Clone for HiResSettings {
    /// Cloning keeps every field.
    fn clone(&self) -> (res: Self)
        ensures
            res == *self,
    {
        HiResSettings {
            upscaler: self.upscaler.clone(),
            upscale_by_milli: self.upscale_by_milli,
            denoising_milli: self.denoising_milli,
            steps: self.steps,
        }
    }
}

impl Clone for PostProcesses {
    /// Cloning keeps the variant and its fields.
    fn clone(&self) -> (res: Self)
        ensures
            res == *self,
    {
        match self {
            PostProcesses::Resize { scale_by_milli } => PostProcesses::Resize {
                scale_by_milli: *scale_by_milli,
            },
        }
    }
}

impl Clone for PromptData {
    /// Cloning keeps every field.
    fn clone(&self) -> (res: Self)
        ensures
            res == *self,
    {
        PromptData {
            positive: self.positive.clone(),
            negative: self.negative.clone(),
            model: self.model.clone(),
            sampler: self.sampler.clone(),
            steps: self.steps,
            width: self.width,
            height: self.height,
            cfg_milli: self.cfg_milli,
            clip_skip: self.clip_skip,
            seed: self.seed,
            hires: match &self.hires {
                Option::None => Option::None,
                Option::Some(h) => Option::Some(h.clone()),
            },
            post_process: match &self.post_process {
                Option::None => Option::None,
                Option::Some(p) => Option::Some(p.clone()),
            },
        }
    }
}

impl PromptData {
    /// This record with its seed cleared, asking generation for a fresh one.
    pub fn cleared_seed(&self) -> (r: PromptData)
        ensures
            r@ == self@.with_seed(None::<i64>),
    {
        let mut r = self.clone();
        r.seed = None;
        proof {
            assert(r@ =~= self@.with_seed(None::<i64>));
        }
        r
    }

    /// This record with the authoritative seed the service reported.
    pub fn with_recorded_seed(&self, seed: i64) -> (r: PromptData)
        ensures
            r@ == self@.with_seed(Some(seed)),
    {
        let mut r = self.clone();
        r.seed = Some(seed);
        proof {
            assert(r@ =~= self@.with_seed(Some(seed)));
        }
        r
    }
}

/// Composes prompt text as `spec_combine` states: trims `a`'s trailing
/// whitespace, inserts a comma unless one already ends it, then appends a
/// space and `b`.
pub fn combine_prompts(a: &str, b: &str) -> (r: String)
    ensures
        r@ == spec_combine(a@, b@),
{
    let n = trim_end_len(a);
    let trimmed = a.substring_char(0, n);
    let mut out = trimmed.to_owned();
    if n == 0 || a.get_char(n - 1) != ',' {
        out.append(",");
    }
    out.append(" ");
    out.append(b);
    proof {
        reveal_strlit(",");
        reveal_strlit(" ");
        if n > 0 {
            assert(trimmed_end(a@).last() == a@.subrange(0, n as int).last());
        }
        assert(out@ =~= spec_combine(a@, b@));
    }
    out
}

} // verus!
