//! The form rules of the adoption example: validating workspace
//! settings, summarizing saved settings, renaming records and filtering them.
use crate::segmentation::{lowercase, string_from_chars, to_lowercase};
use crate::select::contains_text;
use crate::text::{append_str, chars_of};
use vstd::prelude::*;

verus! {

/// Unicode `White_Space` (what `char::is_whitespace` accepts).
pub open spec fn is_space(c: char) -> bool {
    ('\u{9}' <= c && c <= '\u{d}') || c == ' ' || c == '\u{85}' || c == '\u{a0}' || c == '\u{1680}'
        || ('\u{2000}' <= c && c <= '\u{200a}') || c == '\u{2028}' || c == '\u{2029}' || c == '\u{202f}'
        || c == '\u{205f}' || c == '\u{3000}'
}

/// Whether `text` is empty once surrounding white space is trimmed.
pub open spec fn is_blank(text: Seq<char>) -> bool {
    forall|i: int| 0 <= i < text.len() ==> is_space(#[trigger] text[i])
}

fn space(c: char) -> (s: bool)
    ensures
        s == is_space(c),
{
    ('\u{9}' <= c && c <= '\u{d}') || c == ' ' || c == '\u{85}' || c == '\u{a0}' || c == '\u{1680}'
        || ('\u{2000}' <= c && c <= '\u{200a}') || c == '\u{2028}' || c == '\u{2029}' || c == '\u{202f}'
        || c == '\u{205f}' || c == '\u{3000}'
}

/// Whether `text` is blank (see `is_blank`).
pub fn blank(text: &str) -> (b: bool)
    ensures
        b == is_blank(text@),
{
    let chars = chars_of(text);
    let mut i: usize = 0;
    while i < chars.len()
        invariant
            chars@ == text@,
            i <= chars@.len(),
            forall|k: int| 0 <= k < i ==> is_space(#[trigger] chars@[k]),
        decreases chars@.len() - i,
    {
        if !space(chars[i]) {
            return false;
        }
        i = i + 1;
    }
    true
}

/// The value of a run of decimal digits.
pub open spec fn digits_value(digits: Seq<char>) -> nat
    decreases digits.len(),
{
    if digits.len() == 0 {
        0
    } else {
        digits_value(digits.drop_last()) * 10 + (digits.last() as nat - '0' as nat) as nat
    }
}

/// All characters are ASCII digits.
pub open spec fn all_digits(digits: Seq<char>) -> bool {
    forall|i: int| 0 <= i < digits.len() ==> '0' <= #[trigger] digits[i] && digits[i] <= '9'
}

/// What `u32::from_str` accepts: an optional `+`, then one or more ASCII
/// digits, with a value that fits in 32 bits.
pub open spec fn parsed_count(text: Seq<char>) -> Option<nat> {
    let digits = if text.len() > 0 && text[0] == '+' {
        text.drop_first()
    } else {
        text
    };
    if digits.len() > 0 && all_digits(digits) && digits_value(digits) <= u32::MAX {
        Some(digits_value(digits))
    } else {
        None
    }
}

proof fn lemma_digits_value_grows(digits: Seq<char>, n: int)
    requires
        all_digits(digits),
        0 <= n < digits.len(),
    ensures
        digits_value(digits.take(n)) <= digits_value(digits.take(n + 1)),
{
    assert(digits.take(n + 1).drop_last() =~= digits.take(n));
}

proof fn lemma_digits_value_prefix(digits: Seq<char>, n: int)
    requires
        all_digits(digits),
        0 <= n <= digits.len(),
    ensures
        digits_value(digits.take(n)) <= digits_value(digits),
    decreases digits.len() - n,
{
    if n < digits.len() {
        lemma_digits_value_grows(digits, n);
        lemma_digits_value_prefix(digits, n + 1);
    } else {
        assert(digits.take(n) =~= digits);
    }
}

/// Parses a count as `u32::from_str` does (see `parsed_count`).
pub fn parse_count(text: &str) -> (count: Option<u32>)
    ensures
        match parsed_count(text@) {
            Some(v) => count == Some(v as u32),
            None => count is None,
        },
{
    let chars = chars_of(text);
    let start: usize = if chars.len() > 0 && chars[0] == '+' {
        1
    } else {
        0
    };
    let ghost digits = if text@.len() > 0 && text@[0] == '+' {
        text@.drop_first()
    } else {
        text@
    };
    proof {
        assert(digits =~= chars@.skip(start as int));
        assert(parsed_count(text@) == (if digits.len() > 0 && all_digits(digits) && digits_value(digits) <= u32::MAX {
            Some(digits_value(digits))
        } else {
            None
        }));
    }
    if start == chars.len() {
        return None;
    }
    let mut value: u64 = 0;
    let mut i: usize = start;
    while i < chars.len()
        invariant
            chars@ == text@,
            start <= i <= chars@.len(),
            digits == chars@.skip(start as int),
            digits.len() > 0,
            parsed_count(text@) == (if all_digits(digits) && digits_value(digits) <= u32::MAX {
                Some(digits_value(digits))
            } else {
                None
            }),
            forall|k: int| 0 <= k < i - start ==> '0' <= #[trigger] digits[k] && digits[k] <= '9',
            value == digits_value(digits.take(i - start)),
            value <= u32::MAX,
        decreases chars@.len() - i,
    {
        let c = chars[i];
        proof {
            assert(digits[i - start] == c);
        }
        if !('0' <= c && c <= '9') {
            proof {
                assert(!all_digits(digits));
            }
            return None;
        }
        proof {
            assert(digits.take(i - start + 1).drop_last() =~= digits.take(i - start));
            assert(digits.take(i - start + 1).last() == c);
        }
        let digit = (c as u32 - '0' as u32) as u64;
        let next = value * 10 + digit;
        proof {
            assert(digits_value(digits.take(i - start + 1)) == next);
        }
        if next > 4294967295u64 {
            proof {
                if all_digits(digits) {
                    lemma_digits_value_prefix(digits, i - start + 1);
                }
            }
            return None;
        }
        value = next;
        i = i + 1;
    }
    proof {
        assert(digits.take(i - start) =~= digits);
    }
    Some(value as u32)
}

/// Which settings fields are invalid.
#[derive(Clone, Copy, Debug, PartialEq, Eq, Structural)]
pub struct SettingsErrors {
    /// The workspace name is blank.
    pub name: bool,
    /// No region is chosen.
    pub region: bool,
    /// The seat count is not a number from 1 to 200.
    pub seats: bool,
}

impl SettingsErrors {
    /// Whether any field is invalid.
    pub fn any(&self) -> (any: bool)
        ensures
            any == (self.name || self.region || self.seats),
    {
        self.name || self.region || self.seats
    }
}

/// Validates workspace settings: a non-blank name, a region, and 1 to 200 seats.
pub fn settings_errors(name: &str, region: Option<&str>, seats: &str) -> (errors: SettingsErrors)
    ensures
        errors.name == is_blank(name@),
        errors.region == region is None,
        errors.seats == match parsed_count(seats@) {
            Some(v) => !(1 <= v <= 200),
            None => true,
        },
{
    let seats_invalid = match parse_count(seats) {
        Some(v) => !(1 <= v && v <= 200),
        None => true,
    };
    SettingsErrors { name: blank(name), region: region.is_none(), seats: seats_invalid }
}

/// The display name of a region value.
pub open spec fn region_name(region: Option<Seq<char>>) -> Seq<char> {
    match region {
        None => "No region"@,
        Some(r) => if r == "us"@ {
            "United States"@
        } else if r == "apac"@ {
            "Asia Pacific"@
        } else {
            "Europe"@
        },
    }
}

/// The display name of a region value (see `region_name`).
pub fn region_label(region: Option<&str>) -> (label: String)
    ensures
        label@ == region_name(
            match region {
                Some(r) => Some(r@),
                None => None,
            },
        ),
{
    match region {
        None => "No region".to_owned(),
        Some(r) => {
            let chars = chars_of(r);
            let us = chars_of("us");
            let apac = chars_of("apac");
            if same(&chars, &us) {
                "United States".to_owned()
            } else if same(&chars, &apac) {
                "Asia Pacific".to_owned()
            } else {
                "Europe".to_owned()
            }
        },
    }
}

fn same(a: &Vec<char>, b: &Vec<char>) -> (same: bool)
    ensures
        same == (a@ == b@),
{
    if a.len() != b.len() {
        return false;
    }
    let mut i: usize = 0;
    while i < a.len()
        invariant
            a@.len() == b@.len(),
            i <= a@.len(),
            forall|j: int| 0 <= j < i ==> a@[j] == b@[j],
        decreases a@.len() - i,
    {
        if a[i] != b[i] {
            return false;
        }
        i = i + 1;
    }
    proof {
        assert(a@ =~= b@);
    }
    true
}

/// The confirmation shown after saving settings.
pub fn saved_settings(name: &str, region: &str, seats: &str) -> (text: String)
    ensures
        text@ == "Saved: "@ + name@ + " · "@ + region@ + " · "@ + seats@ + " seats"@,
{
    let mut chars = chars_of("Saved: ");
    append_str(&mut chars, name);
    append_str(&mut chars, " · ");
    append_str(&mut chars, region);
    append_str(&mut chars, " · ");
    append_str(&mut chars, seats);
    append_str(&mut chars, " seats");
    string_from_chars(chars.as_slice())
}

/// Saves the settings form: the field errors, and the confirmation when
/// every field is valid.
pub fn save_settings(name: &str, region: Option<&str>, seats: &str) -> (r: (
    SettingsErrors,
    Option<String>,
))
    ensures
        r.0.name == is_blank(name@),
        r.0.region == region is None,
        r.0.seats == match parsed_count(seats@) {
            Some(v) => !(1 <= v <= 200),
            None => true,
        },
        r.1 is Some <==> !(r.0.name || r.0.region || r.0.seats),
        r.1 matches Some(text) ==> text@ == "Saved: "@ + name@ + " · "@ + region_name(
            match region {
                Some(v) => Some(v@),
                None => None,
            },
        ) + " · "@ + seats@ + " seats"@,
{
    let errors = settings_errors(name, region, seats);
    if errors.any() {
        return (errors, None);
    }
    let label = region_label(region);
    (errors, Some(saved_settings(name, label.as_str(), seats)))
}

/// Whether an edited record name is saved: blank names are refused.
pub fn accepts_record_name(name: &str) -> (accepted: bool)
    ensures
        accepted == !is_blank(name@),
{
    !blank(name)
}

/// Whether a record shows under `query`: its lowercased name or owner
/// contains the lowercased query.
pub fn record_matches(name: &str, owner: &str, query: &str) -> (shown: bool)
    ensures
        shown == (contains_text(lowercase(name@), lowercase(query@)) || contains_text(
            lowercase(owner@),
            lowercase(query@),
        )),
{
    let q = chars_of(to_lowercase(query).as_str());
    let n = chars_of(to_lowercase(name).as_str());
    let o = chars_of(to_lowercase(owner).as_str());
    crate::select::contains_chars(&n, &q) || crate::select::contains_chars(&o, &q)
}

} // verus!
