//! Parsing and sanitising classifier responses, the rate-limit gate, and the
//! preparation of classification requests.  The outbound HTTP call itself is
//! the shell's work: the shell hands back the status and body, and everything
//! decided about them is decided here.

use vstd::prelude::*;

use crate::errors::ClassifierError;
use crate::prompt::{PromptMode, build_prompt, prompt_text};
use crate::text::{
    contains_sub,
    find_sub_spec,
    find_sub,
    trimmed,
    trim_str,
    excerpt_spec,
    excerpt,
};
use crate::trusted::{
    classification_json_fields,
    parse_classification_json,
    envelope_choice_contents,
    parse_envelope_json,
    base64_standard,
    base64_encode,
};

verus! {

/// Milliseconds that must pass between two outbound classification calls.
pub const MIN_API_INTERVAL_MS: u64 = 500;

/// Seconds allowed for a text-only classification call.
pub const API_TIMEOUT_SECS: u64 = 30;

/// Largest image accepted for vision classification, in bytes.
pub const MAX_IMAGE_SIZE_BYTES: u64 = 20 * 1024 * 1024;

/// Fewest extracted characters on which a text classification is attempted.
pub const MIN_OCR_TEXT_CHARS: usize = 20;

/// The classifier's answer, sanitised: the confidence is held in thousandths
/// and never leaves `[0, 1000]`, and a missing relevance defaults to `false`.
#[derive(Debug)]
pub struct Classification {
    pub is_relevant: bool,
    pub suggested_folder: String,
    /// Confidence in thousandths: `950` stands for `0.95`.
    pub confidence_milli: u32,
    pub reasoning: String,
}

impl Clone for Classification {
    /// A clone carries every field unchanged.
    fn clone(&self) -> (r: Self)
        ensures
            r == *self,
    {
        Classification {
            is_relevant: self.is_relevant,
            suggested_folder: self.suggested_folder.clone(),
            confidence_milli: self.confidence_milli,
            reasoning: self.reasoning.clone(),
        }
    }
}

impl Classification {
    /// The folder a caller may act on: when the file is not relevant the
    /// suggestion is treated as empty, whatever the response carried.
    pub fn usable_folder(&self) -> (r: String)
        ensures
            r@ == if self.is_relevant {
                self.suggested_folder@
            } else {
                Seq::<char>::empty()
            },
    {
        if self.is_relevant {
            self.suggested_folder.clone()
        } else {
            String::new()
        }
    }
}

/// The raw fields of a well-formed response object, before sanitising: the
/// optional relevance flag, the folder, the confidence number's decimal text,
/// and the reasoning.
#[derive(Debug)]
pub struct RawResponseFields {
    pub is_relevant: Option<bool>,
    pub folder: String,
    pub confidence_text: String,
    pub reasoning: String,
}

/// The JSON payload inside a response body: the inside of the first fenced
/// code block if one is present (with or without a `json` tag), otherwise the
/// whole text, trimmed either way.
pub open spec fn fenced_payload_spec(s: Seq<char>) -> Seq<char> {
    if contains_sub(s, "```json"@) {
        let i = find_sub_spec(s, "```json"@)->Some_0;
        let rest = s.subrange(i + 7, s.len() as int);
        let cut = match find_sub_spec(rest, "```"@) {
            Some(j) => rest.subrange(0, j),
            None => rest,
        };
        trimmed(cut)
    } else if contains_sub(s, "```"@) {
        let i = find_sub_spec(s, "```"@)->Some_0;
        let rest = s.subrange(i + 3, s.len() as int);
        let cut = match find_sub_spec(rest, "```"@) {
            Some(j) => rest.subrange(0, j),
            None => rest,
        };
        trimmed(cut)
    } else {
        trimmed(s)
    }
}

/// Strip exactly the first fenced code block, if any, and trim.
pub fn fenced_payload(content: &str) -> (r: String)
    ensures
        r@ == fenced_payload_spec(content@),
{
    let n = content.unicode_len();
    proof {
        reveal_strlit("```json");
        reveal_strlit("```");
    }
    if let Some(i) = find_sub(content, "```json") {
        proof {
            crate::text::lemma_find_from_match(content@, "```json"@, 0);
            assert(crate::text::match_at(content@, "```json"@, i as int));
        }
        let rest = content.substring_char(i + 7, n);
        let cut = match find_sub(rest, "```") {
            Some(j) => {
                proof {
                    crate::text::lemma_find_from_match(rest@, "```"@, 0);
                }
                rest.substring_char(0, j)
            },
            None => rest,
        };
        trim_str(cut)
    } else if let Some(i) = find_sub(content, "```") {
        proof {
            crate::text::lemma_find_from_match(content@, "```"@, 0);
            assert(crate::text::match_at(content@, "```"@, i as int));
        }
        let rest = content.substring_char(i + 3, n);
        let cut = match find_sub(rest, "```") {
            Some(j) => {
                proof {
                    crate::text::lemma_find_from_match(rest@, "```"@, 0);
                }
                rest.substring_char(0, j)
            },
            None => rest,
        };
        trim_str(cut)
    } else {
        trim_str(content)
    }
}

/// Is `c` a decimal digit?
pub open spec fn is_digit(c: char) -> bool {
    '0' <= c && c <= '9'
}

/// The value of a digit character; anything else counts as zero.
pub open spec fn digit_of(c: char) -> int {
    if is_digit(c) {
        (c as u32) as int - ('0' as u32) as int
    } else {
        0
    }
}

/// Does the text hold a non-zero digit at or after position `i`?
pub open spec fn has_nonzero_digit_from(s: Seq<char>, i: int) -> bool
    decreases s.len() + 1 - i,
{
    if i < 0 || i >= s.len() {
        false
    } else if digit_of(s[i]) > 0 {
        true
    } else {
        has_nonzero_digit_from(s, i + 1)
    }
}

/// Position of the first exponent marker (`e` or `E`) in a number text.
pub open spec fn exp_marker_pos(b: Seq<char>) -> Option<int> {
    match (find_sub_spec(b, "e"@), find_sub_spec(b, "E"@)) {
        (None, None) => None,
        (Some(i), None) => Some(i),
        (None, Some(j)) => Some(j),
        (Some(i), Some(j)) => Some(
            if i <= j {
                i
            } else {
                j
            },
        ),
    }
}

/// The confidence a non-negative decimal number text stands for, in
/// thousandths, clamped into `[0, 1000]`.  A plain decimal reads as one
/// thousand when a non-zero digit stands before the point, and otherwise by
/// its first three fraction digits (truncating).  An exponent form (which
/// the number rendering uses only below `0.00001` or from `1e16` up) clamps
/// by the exponent's sign: a negative exponent reads as zero, any other as
/// one thousand when the mantissa is non-zero.
pub open spec fn milli_unsigned(b: Seq<char>) -> int {
    if exp_marker_pos(b) is Some {
        let ep = exp_marker_pos(b)->Some_0;
        let ex = b.subrange(ep + 1, b.len() as int);
        if ex.len() > 0 && ex[0] == '-' {
            0
        } else if has_nonzero_digit_from(b.subrange(0, ep), 0) {
            1000
        } else {
            0
        }
    } else {
        milli_plain(b)
    }
}

/// The plain-decimal reading behind [`milli_unsigned`].
pub open spec fn milli_plain(b: Seq<char>) -> int {
    let ip = match find_sub_spec(b, "."@) {
        Some(d) => b.subrange(0, d),
        None => b,
    };
    let fp = match find_sub_spec(b, "."@) {
        Some(d) => b.subrange(d + 1, b.len() as int),
        None => Seq::<char>::empty(),
    };
    if has_nonzero_digit_from(ip, 0) {
        1000
    } else {
        let d0 = if fp.len() > 0 {
            digit_of(fp[0])
        } else {
            0
        };
        let d1 = if fp.len() > 1 {
            digit_of(fp[1])
        } else {
            0
        };
        let d2 = if fp.len() > 2 {
            digit_of(fp[2])
        } else {
            0
        };
        d0 * 100 + d1 * 10 + d2
    }
}

/// See [`milli_unsigned`]; a negative number clamps to zero.
pub open spec fn milli_of_number_text(s: Seq<char>) -> int {
    if s.len() > 0 && s[0] == '-' {
        0
    } else {
        milli_unsigned(s)
    }
}

/// The confidence reading is always a proportion of one thousand.
pub proof fn lemma_milli_bounded(s: Seq<char>)
    ensures
        0 <= milli_of_number_text(s) <= 1000,
{
}

fn digit_val(c: char) -> (d: u32)
    ensures
        d as int == digit_of(c),
        d <= 9,
{
    if '0' <= c && c <= '9' {
        (c as u32) - ('0' as u32)
    } else {
        0
    }
}

/// Read a decimal number text as thousandths, clamped into `[0, 1000]`.
pub fn milli_of_text(s: &str) -> (r: u32)
    ensures
        r as int == milli_of_number_text(s@),
        r <= 1000,
{
    let n = s.unicode_len();
    proof {
        reveal_strlit(".");
        reveal_strlit("-");
        lemma_milli_bounded(s@);
    }
    let neg = n > 0 && s.get_char(0) == '-';
    if neg {
        proof {
            assert(milli_of_number_text(s@) == 0);
        }
        return 0;
    }
    let b = s;
    let ghost bv = s@;
    proof {
        reveal_strlit("e");
        reveal_strlit("E");
    }
    let e_lower = find_sub(b, "e");
    let e_upper = find_sub(b, "E");
    let ep_opt: Option<usize> = match (e_lower, e_upper) {
        (None, None) => None,
        (Some(i), None) => Some(i),
        (None, Some(j)) => Some(j),
        (Some(i), Some(j)) => Some(
            if i <= j {
                i
            } else {
                j
            },
        ),
    };
    if let Some(ep) = ep_opt {
        proof {
            crate::text::lemma_find_from_match(bv, "e"@, 0);
            crate::text::lemma_find_from_match(bv, "E"@, 0);
            assert(exp_marker_pos(bv) == Some(ep as int));
            assert(ep < n);
        }
        let exp_neg = ep + 1 < n && b.get_char(ep + 1) == '-';
        let ghost ex = bv.subrange(ep + 1, bv.len() as int);
        proof {
            assert(ex.len() == n - (ep + 1));
            if ep + 1 < n {
                assert(ex[0] == bv[ep + 1]);
            }
        }
        if exp_neg {
            proof {
                assert(milli_unsigned(bv) == 0);
            }
            return 0;
        }
        let ghost mantv = bv.subrange(0, ep as int);
        let mut k: usize = 0;
        while k < ep
            invariant
                bv == b@,
                bv == s@,
                !(bv.len() > 0 && bv[0] == '-'),
                n == bv.len(),
                ep < n,
                k <= ep,
                exp_marker_pos(bv) == Some(ep as int),
                mantv == bv.subrange(0, ep as int),
                !(ep + 1 < n && bv[ep + 1] == '-'),
                has_nonzero_digit_from(mantv, 0) == has_nonzero_digit_from(mantv, k as int),
            decreases ep - k,
        {
            let c = b.get_char(k);
            proof {
                assert(mantv[k as int] == bv[k as int]);
            }
            if digit_val(c) > 0 {
                proof {
                    assert(has_nonzero_digit_from(mantv, k as int));
                    assert(milli_unsigned(bv) == 1000);
                }
                return 1000;
            }
            k += 1;
        }
        proof {
            assert(!has_nonzero_digit_from(mantv, ep as int));
            assert(!has_nonzero_digit_from(mantv, 0));
            assert(milli_unsigned(bv) == 0);
        }
        return 0;
    }
    proof {
        assert(exp_marker_pos(bv) is None);
    }
    let dot = find_sub(b, ".");
    let (ip_lo, ip_hi, fp_lo, fp_hi): (usize, usize, usize, usize) = match dot {
        Some(d) => {
            proof {
                crate::text::lemma_find_from_match(bv, "."@, 0);
                assert(crate::text::match_at(bv, "."@, d as int));
            }
            (0, d, d + 1, n)
        },
        None => (0, n, 0, 0),
    };
    let ghost ipv: Seq<char> = match find_sub_spec(bv, "."@) {
        Some(d) => bv.subrange(0, d),
        None => bv,
    };
    let ghost fpv: Seq<char> = match find_sub_spec(bv, "."@) {
        Some(d) => bv.subrange(d + 1, bv.len() as int),
        None => Seq::<char>::empty(),
    };
    proof {
        assert(ipv.len() == ip_hi as int);
    }
    // A non-zero digit before the point clamps to one.
    let mut k: usize = ip_lo;
    while k < ip_hi
        invariant
            bv == b@,
            bv == s@,
            !(bv.len() > 0 && bv[0] == '-'),
            n == bv.len(),
            ip_hi <= n,
            ip_lo == 0,
            k <= ip_hi,
            ipv == (match find_sub_spec(bv, "."@) {
                Some(d) => bv.subrange(0, d),
                None => bv,
            }),
            (match find_sub_spec(bv, "."@) {
                Some(d) => 0 <= d <= bv.len() && ip_hi as int == d,
                None => ip_hi as int == bv.len() as int,
            }),
            ipv.len() == ip_hi as int,
            exp_marker_pos(bv) is None,
            has_nonzero_digit_from(ipv, 0) == has_nonzero_digit_from(ipv, k as int),
        decreases ip_hi - k,
    {
        let c = b.get_char(k);
        proof {
            if find_sub_spec(bv, "."@) is Some {
                let dd = find_sub_spec(bv, "."@)->Some_0;
                assert(bv.subrange(0, dd)[k as int] == bv[k as int]);
            }
            assert(ipv[k as int] == bv[k as int]);
        }
        if digit_val(c) > 0 {
            proof {
                assert(has_nonzero_digit_from(ipv, k as int));
                assert(milli_unsigned(s@) == 1000);
                assert(milli_of_number_text(s@) == 1000);
            }
            return 1000;
        }
        k += 1;
    }
    proof {
        assert(!has_nonzero_digit_from(ipv, ip_hi as int));
        assert(!has_nonzero_digit_from(ipv, 0));
    }
    let d0 = if fp_hi - fp_lo > 0 {
        digit_val(b.get_char(fp_lo))
    } else {
        0
    };
    let d1 = if fp_hi - fp_lo > 1 {
        digit_val(b.get_char(fp_lo + 1))
    } else {
        0
    };
    let d2 = if fp_hi - fp_lo > 2 {
        digit_val(b.get_char(fp_lo + 2))
    } else {
        0
    };
    let r = d0 * 100 + d1 * 10 + d2;
    proof {
        if dot is Some {
            assert(fpv.len() == n - fp_lo);
            assert(forall|j: int| 0 <= j < fpv.len() ==> fpv[j] == bv[fp_lo + j]);
        }
        assert(r as int == milli_unsigned(s@));
        assert(r as int == milli_of_number_text(s@));
    }
    r
}

/// What `parse_response` makes of a response text: the sanitised
/// classification, or the payload that would not parse.
pub open spec fn parse_outcome(s: Seq<char>) -> Result<
    (bool, Seq<char>, int, Seq<char>),
    Seq<char>,
> {
    let payload = fenced_payload_spec(s);
    match classification_json_fields(payload) {
        Some(f) => Ok(
            (
                match f.0 {
                    Some(b) => b,
                    None => false,
                },
                f.1,
                milli_of_number_text(f.2),
                f.3,
            ),
        ),
        None => Err(payload),
    }
}

/// Every successfully parsed response carries a confidence within `[0, 1]`:
/// whatever number the response held, the reading is clamped into the unit
/// interval (in thousandths).
pub proof fn lemma_parsed_confidence_in_unit_interval(s: Seq<char>)
    ensures
        parse_outcome(s) matches Ok(t) ==> 0 <= t.2 <= 1000,
{
    match classification_json_fields(fenced_payload_spec(s)) {
        Some(f) => {
            lemma_milli_bounded(f.2);
        },
        None => {},
    }
}

/// Parse a classifier response: strip exactly the first fenced block if one
/// is present, read the JSON fields, default a missing relevance flag to
/// `false`, and clamp the confidence into `[0, 1000]` thousandths.
pub fn parse_response(content: &str) -> (r: Result<Classification, ClassifierError>)
    ensures
        ({
            match parse_outcome(content@) {
                Ok(t) => {
                    &&& r matches Ok(c)
                    &&& c.is_relevant == t.0
                    &&& c.suggested_folder@ == t.1
                    &&& c.confidence_milli as int == t.2
                    &&& c.confidence_milli <= 1000
                    &&& c.reasoning@ == t.3
                },
                Err(p) => {
                    &&& r matches Err(e)
                    &&& e matches ClassifierError::ParseJson { source, content: c2 }
                    &&& c2@ == p
                },
            }
        }),
{
    let payload = fenced_payload(content);
    match parse_classification_json(payload.as_str()) {
        Some(f) => {
            let milli = milli_of_text(f.confidence_text.as_str());
            let is_relevant = match f.is_relevant {
                Some(b) => b,
                None => false,
            };
            Ok(
                Classification {
                    is_relevant,
                    suggested_folder: f.folder,
                    confidence_milli: milli,
                    reasoning: f.reasoning,
                },
            )
        },
        None => {
            let mut src = String::new();
            src.append("invalid JSON");
            Err(ClassifierError::ParseJson { source: src, content: payload })
        },
    }
}

/// Judge an external classification response: a non-success status is an
/// error, an empty or undecodable result set is an error, and otherwise the
/// first choice's content is parsed.
pub fn handle_api_response(status: u16, body: &str) -> (r: Result<Classification, ClassifierError>)
    ensures
        !(200 <= status < 300) ==> (r matches Err(e) && e == ClassifierError::ApiStatus(status)),
        (200 <= status < 300) && envelope_choice_contents(body@) is None ==> (r matches Err(e)
            && e matches ClassifierError::HttpClient(m) && m@ == "invalid response body"@),
        (200 <= status < 300) ==> match envelope_choice_contents(body@) {
            None => true,
            Some(cs) => if cs.len() == 0 {
                r matches Err(e) && e == ClassifierError::NoChoices
            } else {
                match parse_outcome(cs[0]) {
                    Ok(t) => {
                        &&& r matches Ok(c)
                        &&& c.is_relevant == t.0
                        &&& c.suggested_folder@ == t.1
                        &&& c.confidence_milli as int == t.2
                        &&& c.confidence_milli <= 1000
                        &&& c.reasoning@ == t.3
                    },
                    Err(p) => r matches Err(e) && e matches ClassifierError::ParseJson {
                        source,
                        content: c2,
                    } && c2@ == p,
                }
            },
        },
{
    if !(200 <= status && status < 300) {
        return Err(ClassifierError::ApiStatus(status));
    }
    match parse_envelope_json(body) {
        None => {
            let mut m = String::new();
            m.append("invalid response body");
            Err(ClassifierError::HttpClient(m))
        },
        Some(contents) => {
            if contents.len() == 0 {
                return Err(ClassifierError::NoChoices);
            }
            proof {
                assert(contents.deep_view()[0] == contents@[0]@);
            }
            parse_response(contents[0].as_str())
        },
    }
}

/// The process-wide minimum-interval gate in front of the external
/// classifier: callers are made to wait, never rejected.
pub struct RateLimiter {
    /// When the most recent call was (or will be) released, in epoch
    /// milliseconds; nothing has called yet if absent.
    pub last_call_ms: Option<i64>,
}

impl RateLimiter {
    /// A gate that lets the first call through at once.
    pub fn new() -> (r: RateLimiter)
        ensures
            r.last_call_ms is None,
    {
        RateLimiter { last_call_ms: None }
    }

    /// How long a call arriving at `now_ms` must wait, and book the slot.
    /// The first call passes at once; later calls wait out the remainder of
    /// the minimum interval; a clock running backwards waits the interval in
    /// full.
    pub fn delay_before_call(&mut self, now_ms: i64) -> (d: u64)
        ensures
            d == rate_delay(old(self).last_call_ms, now_ms),
            d <= MIN_API_INTERVAL_MS,
            final(self).last_call_ms == Some(rate_slot(old(self).last_call_ms, now_ms)),
    {
        let interval = MIN_API_INTERVAL_MS as i64;
        let d: u64 = match self.last_call_ms {
            None => 0,
            Some(prev) => {
                let thresh: i64 = if prev <= i64::MAX - interval {
                    prev + interval
                } else {
                    i64::MAX
                };
                if now_ms >= thresh {
                    0
                } else if now_ms >= prev {
                    (thresh - now_ms) as u64
                } else {
                    MIN_API_INTERVAL_MS
                }
            },
        };
        let slot: i64 = if now_ms <= i64::MAX - (d as i64) {
            now_ms + (d as i64)
        } else {
            i64::MAX
        };
        self.last_call_ms = Some(slot);
        d
    }
}

/// The wait owed by a call arriving at `now` given when the previous slot
/// was booked.
pub open spec fn rate_delay(last: Option<i64>, now: i64) -> u64 {
    match last {
        None => 0u64,
        Some(prev) => {
            let thresh: int = if prev <= i64::MAX - (MIN_API_INTERVAL_MS as int) {
                prev + MIN_API_INTERVAL_MS
            } else {
                i64::MAX as int
            };
            if now >= thresh {
                0u64
            } else if now >= prev {
                (thresh - now) as u64
            } else {
                MIN_API_INTERVAL_MS
            }
        },
    }
}

/// When the call that arrived at `now` is released.
pub open spec fn rate_slot(last: Option<i64>, now: i64) -> i64 {
    if now <= i64::MAX - rate_delay(last, now) {
        (now + rate_delay(last, now)) as i64
    } else {
        i64::MAX
    }
}

/// The in-memory credential store: the stored key, empty when none is
/// configured.
pub struct ApiKeyStore {
    pub key: String,
}

impl ApiKeyStore {
    /// A store with no key configured.
    pub fn new() -> (r: ApiKeyStore)
        ensures
            r.key@ == Seq::<char>::empty(),
    {
        ApiKeyStore { key: String::new() }
    }

    /// Replace the stored key.
    pub fn set_api_key(&mut self, key: String)
        ensures
            final(self).key == key,
    {
        self.key = key;
    }

    /// The stored key, possibly empty, for the settings screen.
    pub fn get_api_key(&self) -> (r: String)
        ensures
            r@ == self.key@,
    {
        self.key.clone()
    }

    /// The stored key, or the error shown when none is configured.
    pub fn get_stored_api_key(&self) -> (r: Result<String, String>)
        ensures
            self.key@.len() == 0 ==> (r matches Err(m) && m@
                == "No API key configured. Please set your OpenAI API key in Settings."@),
            self.key@.len() > 0 ==> (r matches Ok(k) && k@ == self.key@),
    {
        if self.key.as_str().is_empty() {
            let mut m = String::new();
            m.append("No API key configured. Please set your OpenAI API key in Settings.");
            Err(m)
        } else {
            Ok(self.key.clone())
        }
    }
}

/// The extension a path's name carries: everything after the last dot, or
/// the whole text when there is none.
pub open spec fn ext_spec(path: Seq<char>) -> Seq<char> {
    match crate::fsys::last_dot(path) {
        Some(d) => path.subrange(d + 1, path.len() as int),
        None => path,
    }
}

/// Scan a path for its last dot and return what follows it.
pub fn ext_of_path(path: &str) -> (r: String)
    ensures
        r@ == ext_spec(path@),
{
    let n = path.unicode_len();
    proof {
        assert(path@.take(n as int) =~= path@);
    }
    let mut j: usize = n;
    while j > 0
        invariant
            n == path@.len(),
            j <= n,
            crate::fsys::last_dot(path@) == crate::fsys::last_dot(path@.take(j as int)),
        decreases j,
    {
        let c = path.get_char(j - 1);
        if c == '.' {
            proof {
                assert(path@.take(j as int).last() == path@[j - 1]);
                assert(crate::fsys::last_dot(path@) == Some(j - 1));
            }
            return path.substring_char(j, n).to_owned();
        }
        proof {
            assert(path@.take(j as int).drop_last() =~= path@.take(j - 1));
        }
        j -= 1;
    }
    proof {
        assert(path@.take(0) =~= Seq::<char>::empty());
        assert(crate::fsys::last_dot(path@) is None);
    }
    path.to_owned()
}

/// The MIME type the vision payload declares for a lower-cased image
/// extension, defaulting to PNG.
pub open spec fn mime_for_ext(ext: Seq<char>) -> Seq<char> {
    if ext == "png"@ {
        "image/png"@
    } else if ext == "jpg"@ || ext == "jpeg"@ {
        "image/jpeg"@
    } else if ext == "gif"@ {
        "image/gif"@
    } else if ext == "webp"@ {
        "image/webp"@
    } else if ext == "bmp"@ {
        "image/bmp"@
    } else {
        "image/png"@
    }
}

/// Pick the MIME type for a lower-cased extension.
fn mime_of(ext: &str) -> (r: &'static str)
    ensures
        r@ == mime_for_ext(ext@),
{
    if crate::text::str_eq(ext, "png") {
        "image/png"
    } else if crate::text::str_eq(ext, "jpg") || crate::text::str_eq(ext, "jpeg") {
        "image/jpeg"
    } else if crate::text::str_eq(ext, "gif") {
        "image/gif"
    } else if crate::text::str_eq(ext, "webp") {
        "image/webp"
    } else if crate::text::str_eq(ext, "bmp") {
        "image/bmp"
    } else {
        "image/png"
    }
}

/// The inline payload for a vision request: the image as a base64 data URL
/// under the MIME type its file extension declares.  An image over the size
/// cap is refused before anything is encoded.
pub fn image_data_url(bytes: &Vec<u8>, file_path: &str) -> (r: Result<String, ClassifierError>)
    ensures
        bytes@.len() > MAX_IMAGE_SIZE_BYTES ==> (r matches Err(e) && e
            matches ClassifierError::ImageTooLarge { actual_bytes, max_bytes } && actual_bytes
            == bytes@.len() && max_bytes == MAX_IMAGE_SIZE_BYTES),
        bytes@.len() <= MAX_IMAGE_SIZE_BYTES ==> (r matches Ok(u) && u@ == "data:"@ + mime_for_ext(
            crate::text::ascii_lowered(ext_spec(file_path@)),
        ) + ";base64,"@ + base64_standard(bytes@)),
{
    if bytes.len() as u64 > MAX_IMAGE_SIZE_BYTES {
        return Err(
            ClassifierError::ImageTooLarge {
                actual_bytes: bytes.len() as u64,
                max_bytes: MAX_IMAGE_SIZE_BYTES,
            },
        );
    }
    let ext_raw = ext_of_path(file_path);
    let ext = crate::text::ascii_lower(ext_raw.as_str());
    let mime = mime_of(ext.as_str());
    let b64 = base64_encode(bytes);
    let mut u = String::new();
    u.append("data:");
    u.append(mime);
    u.append(";base64,");
    u.append(b64.as_str());
    Ok(u)
}

/// A classification request ready for the shell to send: the prompt, the
/// model it goes to, how long to wait before sending under the rate gate,
/// and the transport timeout.
pub struct PreparedRequest {
    pub prompt: String,
    pub model: String,
    pub wait_ms: u64,
    pub timeout_secs: u64,
}

/// Prepare a classification call: fail at once when no credential is
/// configured; otherwise build the mode's prompt, book a slot at the rate
/// gate, and pick the model and timeout the mode calls for (vision gets the
/// larger model and twice the time).
pub fn prepare_classification(
    key_store: &ApiKeyStore,
    limiter: &mut RateLimiter,
    now_ms: i64,
    filename: &str,
    available_folders: &Vec<String>,
    correction_history: &Vec<String>,
    mode: PromptMode,
) -> (r: Result<PreparedRequest, ClassifierError>)
    ensures
        key_store.key@.len() == 0 ==> (r matches Err(e) && e == ClassifierError::MissingApiKey
            && *final(limiter) == *old(limiter)),
        key_store.key@.len() > 0 ==> (r matches Ok(p) && {
            &&& p.prompt@ == prompt_text(
                filename@,
                available_folders.deep_view(),
                correction_history.deep_view(),
                &mode,
            )
            &&& p.wait_ms == rate_delay(old(limiter).last_call_ms, now_ms)
            &&& final(limiter).last_call_ms == Some(rate_slot(old(limiter).last_call_ms, now_ms))
            &&& (mode is Vision ==> p.model@ == "gpt-4o"@ && p.timeout_secs == 2
                * API_TIMEOUT_SECS)
            &&& (!(mode is Vision) ==> p.model@ == "gpt-3.5-turbo"@ && p.timeout_secs
                == API_TIMEOUT_SECS)
        }),
{
    if key_store.key.as_str().is_empty() {
        return Err(ClassifierError::MissingApiKey);
    }
    let (model, timeout_secs): (&'static str, u64) = match &mode {
        PromptMode::Vision => ("gpt-4o", 2 * API_TIMEOUT_SECS),
        _ => ("gpt-3.5-turbo", API_TIMEOUT_SECS),
    };
    let prompt = build_prompt(filename, available_folders, correction_history, mode);
    let wait_ms = limiter.delay_before_call(now_ms);
    Ok(PreparedRequest { prompt, model: model.to_owned(), wait_ms, timeout_secs })
}

/// Condense a PDF extraction outcome: at most five hundred characters of the
/// extracted text, whitespace-normalised, or the extraction failure as the
/// PDF extraction error.  The extraction itself runs in the shell, isolated
/// there because the document parser may abort on hostile input; whatever it
/// hands back, this function's result is fixed.
pub fn pdf_text_excerpt(extraction: Result<String, String>) -> (r: Result<String, ClassifierError>)
    ensures
        extraction matches Ok(t) ==> (r matches Ok(x) && x@ == excerpt_spec(t@, 500)),
        extraction matches Err(m) ==> (r matches Err(e) && e matches ClassifierError::PdfExtract(x)
            && x == m),
{
    match extraction {
        Ok(t) => Ok(excerpt(t.as_str(), 500)),
        Err(e) => Err(ClassifierError::PdfExtract(e)),
    }
}

/// Condense raw OCR output: at most five hundred characters, whitespace
/// normalised.
pub fn ocr_excerpt(text: &str) -> (r: String)
    ensures
        r@ == excerpt_spec(text@, 500),
{
    excerpt(text, 500)
}

/// Gate extracted OCR text: too little text (under the character
/// threshold) is the caller's signal to escalate to vision classification.
pub fn ocr_text_gate(text: String) -> (r: Result<String, String>)
    ensures
        text@.len() < MIN_OCR_TEXT_CHARS ==> (r matches Err(m) && m@ == "OCR_INSUFFICIENT_TEXT"@),
        text@.len() >= MIN_OCR_TEXT_CHARS ==> (r matches Ok(t) && t == text),
{
    if text.as_str().unicode_len() < MIN_OCR_TEXT_CHARS {
        let mut m = String::new();
        m.append("OCR_INSUFFICIENT_TEXT");
        Err(m)
    } else {
        Ok(text)
    }
}

} // verus!
