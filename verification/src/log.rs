//! The batch log: the durable record of a run. It is created with a stable
//! timestamped file path, filled with the full plan before any image is
//! generated, and updated in place as authoritative seeds arrive. Resume and
//! reroll decisions — which indices still need work — live here too; the file
//! system only carries out what these functions decide.
use vstd::prelude::*;

use crate::params::{ParamsView, PromptData};
use crate::text::{
    digit_val, digits_value, get_safe_filename, is_digit, is_digit_exec,
    lemma_digits_value_nonneg, lemma_digits_value_prefix_le, spec_safe_filename,
};
use crate::BatchError;

verus! {

/// Mathematical image of `BatchLog`.
pub ghost struct LogView {
    pub template: Seq<char>,
    pub images: Seq<ParamsView>,
    pub file_path: Seq<char>,
}

/// A run's log: the template name and one parameter record per image, in
/// generation order — the record at index `i` describes the image file named
/// after `i`. The log is bound to one file path at creation and every later
/// write overwrites that same file.
#[derive(Debug)]
pub struct BatchLog {
    /// Template name the run was made from.
    pub template: String,
    /// Planned and generated images, index-aligned with output file names.
    pub images: Vec<PromptData>,
    /// Stable path of the log file, assigned at creation, never renamed.
    pub file_path: String,
}

impl View for BatchLog {
    type V = LogView;

    open spec fn view(&self) -> LogView {
        LogView {
            template: self.template@,
            images: self.images@.map_values(|p: PromptData| p@),
            file_path: self.file_path@,
        }
    }
}

/// The current local time rendered as `YYYY-MM-DD-HHMM`.
/// Relies on chrono's `Local::now` and `DateTime::format`: the result depends
/// on the clock, so nothing is promised of it.
#[verifier::external_body]
fn local_timestamp() -> String {
    format!("{}", chrono::Local::now().format("%Y-%m-%d-%H%M"))
}

/// The file name a log gets: sanitized template name, a dash, the creation
/// timestamp, and `.json`.
pub open spec fn spec_logfile_name(name: Seq<char>, stamp: Seq<char>) -> Seq<char> {
    spec_safe_filename(name) + "-"@ + stamp + ".json"@
}

/// Builds the log file name from a template name and a timestamp.
pub fn safe_logfile_name(name: &str, stamp: &str) -> (r: String)
    ensures
        r@ == spec_logfile_name(name@, stamp@),
{
    let mut f = get_safe_filename(name);
    f.append("-");
    f.append(stamp);
    f.append(".json");
    f
}

impl BatchLog {
    /// A fresh, empty log for a run of template `name`, bound to a stable
    /// timestamped file path inside `output_dir`.
    pub fn new(name: &str, output_dir: &str) -> (log: BatchLog)
        ensures
            log.template@ == name@,
            log.images@.len() == 0,
            exists|stamp: Seq<char>|
                log.file_path@ == output_dir@ + "/"@ + #[trigger] spec_logfile_name(
                    name@,
                    stamp,
                ),
    {
        let stamp = local_timestamp();
        let file_name = safe_logfile_name(name, stamp.as_str());
        let mut file_path = output_dir.to_owned();
        file_path.append("/");
        file_path.append(file_name.as_str());
        let log = BatchLog { template: name.to_owned(), images: Vec::new(), file_path };
        proof {
            assert(log.file_path@ == output_dir@ + "/"@ + spec_logfile_name(name@, stamp@));
        }
        log
    }

    /// A log read back from its file: the decoded template name and records,
    /// re-bound to the path it was read from.
    pub fn with_path(template: String, images: Vec<PromptData>, file_path: String) -> (log:
        BatchLog)
        ensures
            log.template == template,
            log.images == images,
            log.file_path == file_path,
    {
        BatchLog { template, images, file_path }
    }

    /// Appends one planned record.
    pub fn push_image(&mut self, params: PromptData)
        ensures
            final(self).template == old(self).template,
            final(self).file_path == old(self).file_path,
            final(self).images@ == old(self).images@.push(params),
    {
        self.images.push(params);
    }

    /// Replaces the record at `index`, the one mutation generation, resume
    /// and reroll perform; every other record is untouched.
    pub fn set_image(&mut self, index: usize, params: PromptData)
        requires
            index < old(self).images@.len(),
        ensures
            final(self).template == old(self).template,
            final(self).file_path == old(self).file_path,
            final(self).images@ == old(self).images@.update(index as int, params),
    {
        self.images[index] = params;
    }

    /// A copy of the record at `index` with its seed cleared, ready to be
    /// regenerated with a fresh seed.
    pub fn cleared_entry(&self, index: usize) -> (r: PromptData)
        requires
            index < self.images@.len(),
        ensures
            r@ == self.images@[index as int]@.with_seed(None::<i64>),
    {
        self.images[index].cleared_seed()
    }

    /// Validates a reroll index against the log: rejected, with no mutation
    /// anywhere, exactly when the log holds too few images.
    pub fn check_reroll_index(&self, index: usize) -> (r: Result<(), BatchError>)
        ensures
            r is Ok <==> index < self.images@.len(),
            r matches Err(e) ==> (e matches BatchError::InvalidIndex { index: i, len }
                && i == index && len == self.images@.len()),
    {
        if index < self.images.len() {
            Ok(())
        } else {
            Err(BatchError::InvalidIndex { index, len: self.images.len() })
        }
    }

    /// The directory the log file sits in: everything before the last slash
    /// of its path. A path with no slash has no resolvable parent and is
    /// rejected; nothing can be written next to it.
    pub fn output_dir(&self) -> (r: Result<String, BatchError>)
        ensures
            r is Ok <==> spec_parent_dir(self.file_path@) is Some,
            r matches Ok(d) ==> Some(d@) == spec_parent_dir(self.file_path@),
            r matches Err(e) ==> e is InvalidOutputDirectory,
    {
        match last_slash_pos(self.file_path.as_str()) {
            Option::None => Err(BatchError::InvalidOutputDirectory),
            Option::Some(i) => {
                let d = self.file_path.as_str().substring_char(0, i);
                Ok(d.to_owned())
            },
        }
    }
}

/// The directory part of a path: the text before its last `/`, or nothing
/// when the path has no separator.
pub open spec fn spec_parent_dir(path: Seq<char>) -> Option<Seq<char>> {
    if exists|i: int| 0 <= i < path.len() && path[i] == '/' {
        let i = last_index_of(path, '/');
        Some(path.subrange(0, i))
    } else {
        None
    }
}

/// The largest index at which `c` occurs in `s`.
pub open spec fn last_index_of(s: Seq<char>, c: char) -> int
    decreases s.len(),
{
    if s.len() == 0 {
        -1
    } else if s.last() == c {
        s.len() - 1
    } else {
        last_index_of(s.drop_last(), c)
    }
}

/// Position of the last `/` in `s`, if any.
fn last_slash_pos(s: &str) -> (r: Option<usize>)
    ensures
        r matches Some(i) ==> i < s@.len() && s@[i as int] == '/' && i == last_index_of(s@, '/')
            && (exists|j: int| 0 <= j < s@.len() && s@[j] == '/'),
        r is None ==> forall|j: int| 0 <= j < s@.len() ==> s@[j] != '/',
{
    let n = s.unicode_len();
    let mut k: usize = n;
    proof {
        assert(s@.subrange(0, n as int) =~= s@);
    }
    while k > 0
        invariant
            n == s@.len(),
            k <= n,
            forall|j: int| k <= j < n ==> s@[j] != '/',
            last_index_of(s@, '/') == last_index_of(s@.subrange(0, k as int), '/'),
        decreases k,
    {
        proof {
            assert(s@.subrange(0, k as int).last() == s@[k - 1]);
            assert(s@.subrange(0, k as int).drop_last() =~= s@.subrange(0, k - 1));
        }
        if s.get_char(k - 1) == '/' {
            proof {
                assert(last_index_of(s@, '/') == k - 1);
            }
            return Some(k - 1);
        }
        k = k - 1;
    }
    proof {
        assert(s@.subrange(0, 0) =~= Seq::<char>::empty());
    }
    None
}

/// The digit part of an index stem: the stem with one optional leading `+`
/// removed.
pub open spec fn stem_digits(s: Seq<char>) -> Seq<char> {
    if s.len() > 0 && s[0] == '+' {
        s.skip(1)
    } else {
        s
    }
}

/// An image index as file stems spell one: an optional leading `+`, then at
/// least one decimal digit and nothing else, denoting a value that fits the
/// machine.
pub open spec fn spec_parse_index(s: Seq<char>) -> Option<int> {
    let d = stem_digits(s);
    if d.len() > 0 && (forall|i: int| 0 <= i < d.len() ==> is_digit(#[trigger] d[i]))
        && digits_value(d) <= usize::MAX {
        Some(digits_value(d))
    } else {
        None
    }
}

/// Parses a file stem as an image index: an optional leading `+`, then
/// decimal digits. Anything else, or a value too large for the machine,
/// is no index.
#[verifier::rlimit(30)]
pub fn parse_image_index(stem: &str) -> (r: Option<usize>)
    ensures
        r matches Some(v) ==> spec_parse_index(stem@) == Some(v as int),
        r is None ==> spec_parse_index(stem@) is None,
{
    let n = stem.unicode_len();
    let start: usize = if n > 0 && stem.get_char(0) == '+' {
        1
    } else {
        0
    };
    if start == n {
        proof {
            assert(stem_digits(stem@).len() == 0);
        }
        return None;
    }
    let ghost d = stem_digits(stem@);
    proof {
        assert(d =~= stem@.subrange(start as int, n as int));
    }
    let mut acc: usize = 0;
    let mut i: usize = start;
    while i < n
        invariant
            n == stem@.len(),
            start <= i <= n,
            d == stem_digits(stem@),
            d =~= stem@.subrange(start as int, n as int),
            forall|k: int| 0 <= k < i - start ==> is_digit(#[trigger] d[k]),
            acc == digits_value(d.subrange(0, i - start)),
        decreases n - i,
    {
        let c = stem.get_char(i);
        if !is_digit_exec(c) {
            proof {
                assert(d[i - start] == c);
            }
            return None;
        }
        let dv: usize = (c as u32 as usize) - ('0' as u32 as usize);
        proof {
            assert(d.subrange(0, i - start + 1).drop_last() =~= d.subrange(0, i - start));
            assert(d.subrange(0, i - start + 1).last() == d[i - start]);
            lemma_digits_value_nonneg(d.subrange(0, i - start));
        }
        if acc > (usize::MAX - dv) / 10 {
            proof {
                assert(digits_value(d.subrange(0, i - start + 1)) > usize::MAX);
                if forall|k: int| 0 <= k < d.len() ==> is_digit(#[trigger] d[k]) {
                    lemma_digits_value_prefix_le(d, i - start + 1);
                }
            }
            return None;
        }
        acc = acc * 10 + dv;
        i = i + 1;
    }
    proof {
        assert(d.subrange(0, n - start) =~= d);
    }
    Some(acc)
}

/// The image index a file name denotes, if any: the name must end in
/// `.png` and its stem (the part before that last dot) must be a plain
/// decimal index. Secondary images (`3-1.png`) and foreign files denote
/// none.
pub open spec fn spec_image_index(name: Seq<char>) -> Option<int> {
    if exists|i: int| 0 <= i < name.len() && name[i] == '.' {
        let dot = last_index_of(name, '.');
        if name.subrange(dot, name.len() as int) == ".png"@ {
            spec_parse_index(name.subrange(0, dot))
        } else {
            None
        }
    } else {
        None
    }
}

/// Position of the last `.` in `s`, if any.
fn last_dot_pos(s: &str) -> (r: Option<usize>)
    ensures
        r matches Some(i) ==> i < s@.len() && s@[i as int] == '.' && i == last_index_of(s@, '.')
            && (exists|j: int| 0 <= j < s@.len() && s@[j] == '.'),
        r is None ==> forall|j: int| 0 <= j < s@.len() ==> s@[j] != '.',
{
    let n = s.unicode_len();
    let mut k: usize = n;
    proof {
        assert(s@.subrange(0, n as int) =~= s@);
    }
    while k > 0
        invariant
            n == s@.len(),
            k <= n,
            forall|j: int| k <= j < n ==> s@[j] != '.',
            last_index_of(s@, '.') == last_index_of(s@.subrange(0, k as int), '.'),
        decreases k,
    {
        proof {
            assert(s@.subrange(0, k as int).last() == s@[k - 1]);
            assert(s@.subrange(0, k as int).drop_last() =~= s@.subrange(0, k - 1));
        }
        if s.get_char(k - 1) == '.' {
            proof {
                assert(last_index_of(s@, '.') == k - 1);
            }
            return Some(k - 1);
        }
        k = k - 1;
    }
    proof {
        assert(s@.subrange(0, 0) =~= Seq::<char>::empty());
    }
    None
}

/// The image index a file name denotes, by `spec_image_index`.
pub fn image_file_index(name: &str) -> (r: Option<usize>)
    ensures
        r matches Some(v) ==> spec_image_index(name@) == Some(v as int),
        r is None ==> spec_image_index(name@) is None,
{
    match last_dot_pos(name) {
        Option::None => None,
        Option::Some(dot) => {
            let n = name.unicode_len();
            let ext = name.substring_char(dot, n);
            if !str_eq(ext, ".png") {
                return None;
            }
            let stem = name.substring_char(0, dot);
            parse_image_index(stem)
        },
    }
}

/// Character-wise string equality.
fn str_eq(a: &str, b: &str) -> (r: bool)
    ensures
        r == (a@ == b@),
{
    let na = a.unicode_len();
    let nb = b.unicode_len();
    if na != nb {
        proof {
            assert(a@ != b@);
        }
        return false;
    }
    let mut i: usize = 0;
    while i < na
        invariant
            na == a@.len(),
            na == b@.len(),
            i <= na,
            forall|k: int| 0 <= k < i ==> a@[k] == b@[k],
        decreases na - i,
    {
        if a.get_char(i) != b.get_char(i) {
            return false;
        }
        i = i + 1;
    }
    proof {
        assert(a@ =~= b@);
    }
    true
}

/// Some file in the listing denotes image index `ix`.
pub open spec fn listing_has_index(filenames: Seq<String>, ix: int) -> bool {
    exists|j: int|
        0 <= j < filenames.len() && spec_image_index(#[trigger] filenames[j]@) == Some(ix)
}

/// The indices of images already present in an output directory, read off
/// the directory's file names: one index per name that spells
/// `<index>.png`.
pub fn existing_image_indices(filenames: &Vec<String>) -> (r: Vec<usize>)
    ensures
        forall|k: int|
            0 <= k < r@.len() ==> listing_has_index(filenames@, #[trigger] r@[k] as int),
        forall|j: int|
            0 <= j < filenames@.len() && (#[trigger] spec_image_index(filenames@[j]@)) is Some
                && spec_image_index(filenames@[j]@)->0 <= usize::MAX ==> r@.contains(
                (spec_image_index(filenames@[j]@)->0) as usize,
            ),
{
    let n = filenames.len();
    let mut r: Vec<usize> = Vec::new();
    let mut j: usize = 0;
    while j < n
        invariant
            n == filenames@.len(),
            j <= n,
            forall|k: int|
                0 <= k < r@.len() ==> listing_has_index(filenames@, #[trigger] r@[k] as int),
            forall|l: int|
                0 <= l < j && (#[trigger] spec_image_index(filenames@[l]@)) is Some
                    && spec_image_index(filenames@[l]@)->0 <= usize::MAX ==> r@.contains(
                    (spec_image_index(filenames@[l]@)->0) as usize,
                ),
        decreases n - j,
    {
        let ghost prev = r@;
        match image_file_index(filenames[j].as_str()) {
            Option::None => {},
            Option::Some(ix) => {
                r.push(ix);
                proof {
                    assert(r@[r@.len() - 1] == ix);
                    assert(r@.contains(ix));
                    assert(listing_has_index(filenames@, ix as int)) by {
                        assert(spec_image_index(filenames@[j as int]@) == Some(ix as int));
                    }
                }
            },
        }
        proof {
            assert forall|k: int| 0 <= k < prev.len() implies r@[k] == prev[k] by {}
            assert forall|x: usize| prev.contains(x) implies r@.contains(x) by {
                let l = choose|l: int| 0 <= l < prev.len() && prev[l] == x;
                assert(r@[l] == x);
            }
        }
        j = j + 1;
    }
    r
}

/// Whether `v` holds `x`.
pub fn contains_usize(v: &Vec<usize>, x: usize) -> (r: bool)
    ensures
        r == v@.contains(x),
{
    let n = v.len();
    let mut i: usize = 0;
    while i < n
        invariant
            n == v@.len(),
            i <= n,
            forall|k: int| 0 <= k < i ==> v@[k] != x,
        decreases n - i,
    {
        if v[i] == x {
            proof {
                assert(v@.contains(x));
            }
            return true;
        }
        i = i + 1;
    }
    proof {
        assert(!v@.contains(x));
    }
    false
}

/// What resume regenerates: exactly the indices below `len` that no existing
/// image covers, in ascending order. Indices with an image on disk are left
/// untouched.
pub fn missing_indices(len: usize, existing: &Vec<usize>) -> (r: Vec<usize>)
    ensures
        forall|k: int|
            0 <= k < r@.len() ==> #[trigger] r@[k] < len && !existing@.contains(r@[k]),
        forall|i: usize| i < len && !existing@.contains(i) ==> r@.contains(i),
        forall|k: int, l: int| 0 <= k < l < r@.len() ==> r@[k] < r@[l],
{
    let mut r: Vec<usize> = Vec::new();
    let mut i: usize = 0;
    while i < len
        invariant
            i <= len,
            forall|k: int|
                0 <= k < r@.len() ==> #[trigger] r@[k] < i && !existing@.contains(r@[k]),
            forall|x: usize| x < i && !existing@.contains(x) ==> r@.contains(x),
            forall|k: int, l: int| 0 <= k < l < r@.len() ==> r@[k] < r@[l],
        decreases len - i,
    {
        let ghost prev = r@;
        if !contains_usize(existing, i) {
            r.push(i);
            proof {
                assert(r@[r@.len() - 1] == i);
                assert(r@.contains(i));
            }
        }
        proof {
            assert forall|k: int| 0 <= k < prev.len() implies r@[k] == prev[k] by {}
            assert forall|x: usize| prev.contains(x) implies r@.contains(x) by {
                let l = choose|l: int| 0 <= l < prev.len() && prev[l] == x;
                assert(r@[l] == x);
            }
        }
        i = i + 1;
    }
    r
}

} // verus!
