//! Registry prerequisite checks: a job whose prerequisite holds is already installed.
use vstd::prelude::*;
use crate::agent::JobInfo;
use crate::number::{digit_value, parse_unsigned, unsigned_digits};
use crate::number::parse_unsigned_chars;
use crate::text::{chars_of, decimal, same_text};
use crate::ipv4::lemma_decimal;

verus! {

/// What was read from the registry for a job's prerequisite check (under
/// `HKEY_LOCAL_MACHINE`, key and value name as `registry_target` gives them).
#[derive(Debug)]
pub struct RegistryReading {
    /// The key could be opened.
    pub key_opened: bool,
    /// The named value exists (any type).
    pub raw_present: bool,
    /// The value read as a `DWORD`, when that succeeded.
    pub dword: Option<u32>,
    /// The value read as a string, when that succeeded.
    pub text: Option<String>,
}

/// The text of an optional field, or `default` when it is absent.
pub open spec fn text_or(o: Option<String>, default: Seq<char>) -> Seq<char> {
    match o {
        Some(s) => s@,
        None => default,
    }
}

/// The number that the expected text gives, as `str::parse::<u32>` reads it, or 0 when it is none.
pub open spec fn expected_number(expected: Seq<char>) -> nat {
    match parse_unsigned(expected, 10, 0xffff_ffff) {
        Some(v) => v,
        None => 0,
    }
}

/// A `DWORD` comparison: `eq`, `ne`, `gt`, `gte`, `lt`, `lte`; any other word fails.
pub open spec fn dword_holds(relation: Seq<char>, value: nat, expected: nat) -> bool {
    if relation == "eq"@ {
        value == expected
    } else if relation == "ne"@ {
        value != expected
    } else if relation == "gt"@ {
        value > expected
    } else if relation == "gte"@ {
        value >= expected
    } else if relation == "lt"@ {
        value < expected
    } else if relation == "lte"@ {
        value <= expected
    } else {
        false
    }
}

/// A string comparison: `eq` or `ne`; any other word fails.
pub open spec fn text_holds(relation: Seq<char>, value: Seq<char>, expected: Seq<char>) -> bool {
    if relation == "eq"@ {
        value == expected
    } else if relation == "ne"@ {
        value != expected
    } else {
        false
    }
}

/// The prerequisite of a job holds for what was read from the registry.
/// Absent fields default to: value name `""`, type `exists`, comparison `exists`, expected `""`.
pub open spec fn prerequisite_holds(job: JobInfo, r: RegistryReading) -> bool {
    match job.pre_check_reg_key {
        None => false,
        Some(key) => {
            let value = text_or(job.pre_check_reg_value, ""@);
            let ty = text_or(job.pre_check_reg_type, "exists"@);
            let relation = text_or(job.pre_check_reg_compare, "exists"@);
            let expected = text_or(job.pre_check_reg_expected, ""@);
            if key@.len() == 0 || !r.key_opened {
                false
            } else if relation == "exists"@ && value.len() == 0 {
                true
            } else if ty == "exists"@ {
                r.raw_present
            } else if ty == "dword"@ {
                match r.dword {
                    Some(v) => dword_holds(relation, v as nat, expected_number(expected)),
                    None => false,
                }
            } else if ty == "sz"@ {
                match r.text {
                    Some(t) => text_holds(relation, t@, expected),
                    None => false,
                }
            } else {
                false
            }
        },
    }
}

/// The registry key and value name a job's check reads, when it has a non-empty key.
pub open spec fn target_of(job: JobInfo) -> Option<(Seq<char>, Seq<char>)> {
    match job.pre_check_reg_key {
        Some(key) => if key@.len() == 0 {
            None
        } else {
            Some((key@, text_or(job.pre_check_reg_value, ""@)))
        },
        None => None,
    }
}

/// The text of an optional field, or the given default.
fn field_or<'a>(o: &'a Option<String>, default: &'a str) -> (s: &'a str)
    ensures
        s@ == text_or(*o, default@),
{
    match o {
        Some(t) => t.as_str(),
        None => default,
    }
}

/// The registry key (under `HKEY_LOCAL_MACHINE`) and value name that a job's prerequisite
/// check reads; `None` when the job has no such check.
pub fn registry_target(job: &JobInfo) -> (t: Option<(String, String)>)
    ensures
        match t {
            Some(p) => target_of(*job) == Some((p.0@, p.1@)),
            None => target_of(*job) is None,
        },
{
    match &job.pre_check_reg_key {
        None => None,
        Some(key) => {
            if key.as_str().is_empty() {
                None
            } else {
                let value = field_or(&job.pre_check_reg_value, "");
                proof {
                    reveal_strlit("");
                }
                Some((key.clone(), value.to_owned()))
            }
        },
    }
}

/// Whether a `DWORD` comparison holds.
fn dword_compare(relation: &str, value: u32, expected: u32) -> (r: bool)
    ensures
        r == dword_holds(relation@, value as nat, expected as nat),
{
    if same_text(relation, "eq") {
        value == expected
    } else if same_text(relation, "ne") {
        value != expected
    } else if same_text(relation, "gt") {
        value > expected
    } else if same_text(relation, "gte") {
        value >= expected
    } else if same_text(relation, "lt") {
        value < expected
    } else if same_text(relation, "lte") {
        value <= expected
    } else {
        false
    }
}

/// Whether a string comparison holds.
fn text_compare(relation: &str, value: &str, expected: &str) -> (r: bool)
    ensures
        r == text_holds(relation@, value@, expected@),
{
    if same_text(relation, "eq") {
        same_text(value, expected)
    } else if same_text(relation, "ne") {
        !same_text(value, expected)
    } else {
        false
    }
}

/// Whether a job's registry prerequisite holds, so that it counts as already installed.
pub fn check_prerequisites(job: &JobInfo, reading: &RegistryReading) -> (r: bool)
    ensures
        r == prerequisite_holds(*job, *reading),
{
    let key = match &job.pre_check_reg_key {
        Some(k) => k,
        None => return false,
    };
    if key.as_str().is_empty() {
        return false;
    }
    let value = field_or(&job.pre_check_reg_value, "");
    let ty = field_or(&job.pre_check_reg_type, "exists");
    let relation = field_or(&job.pre_check_reg_compare, "exists");
    let expected = field_or(&job.pre_check_reg_expected, "");
    if !reading.key_opened {
        return false;
    }
    if same_text(relation, "exists") && value.is_empty() {
        return true;
    }
    if same_text(ty, "exists") {
        reading.raw_present
    } else if same_text(ty, "dword") {
        match reading.dword {
            Some(v) => {
                let digits = chars_of(expected);
                let want: u32 = match parse_unsigned_chars(digits.as_slice(), 10, 0xffff_ffffu32) {
                    Some(n) => n,
                    None => 0,
                };
                dword_compare(relation, v, want)
            },
            None => false,
        }
    } else if same_text(ty, "sz") {
        match &reading.text {
            Some(t) => text_compare(relation, t.as_str(), expected),
            None => false,
        }
    } else {
        false
    }
}

/// A job whose check reads a value of type `ty` with comparison `relation` and expected
/// text `expected`, from a non-empty key.
pub open spec fn value_check(job: JobInfo, ty: Seq<char>, relation: Seq<char>, expected: Seq<char>) -> bool {
    &&& job.pre_check_reg_key matches Some(k) && k@.len() > 0
    &&& job.pre_check_reg_type matches Some(t) && t@ == ty
    &&& job.pre_check_reg_compare matches Some(c) && c@ == relation
    &&& job.pre_check_reg_expected matches Some(x) && x@ == expected
}

/// Law: a `dword` check of a value that was read compares it with the expected number as
/// its comparison word says: `eq` equal, `ne` different, `gt` greater, `gte` greater or
/// equal, `lt` less, `lte` less or equal; and the expected number is read from its decimal
/// text (any `u32` written in decimal reads as itself).
pub proof fn dword_comparisons_hold_as_named(job: JobInfo, r: RegistryReading, v: u32, expected: Seq<char>)
    requires
        r.key_opened,
        r.dword == Some(v),
    ensures
        value_check(job, "dword"@, "eq"@, expected) ==> (prerequisite_holds(job, r) <==> v == expected_number(expected)),
        value_check(job, "dword"@, "ne"@, expected) ==> (prerequisite_holds(job, r) <==> v != expected_number(expected)),
        value_check(job, "dword"@, "gt"@, expected) ==> (prerequisite_holds(job, r) <==> v > expected_number(expected)),
        value_check(job, "dword"@, "gte"@, expected) ==> (prerequisite_holds(job, r) <==> v >= expected_number(expected)),
        value_check(job, "dword"@, "lt"@, expected) ==> (prerequisite_holds(job, r) <==> v < expected_number(expected)),
        value_check(job, "dword"@, "lte"@, expected) ==> (prerequisite_holds(job, r) <==> v <= expected_number(expected)),
        forall|n: nat| n <= 0xffff_ffff ==> #[trigger] expected_number(decimal(n)) == n,
{
    reveal_strlit("dword");
    reveal_strlit("exists");
    reveal_strlit("eq");
    reveal_strlit("ne");
    reveal_strlit("gt");
    reveal_strlit("gte");
    reveal_strlit("lt");
    reveal_strlit("lte");
    assert("dword"@.len() == 5 && "exists"@.len() == 6);
    assert("eq"@.len() == 2 && "ne"@.len() == 2 && "gt"@.len() == 2 && "lt"@.len() == 2);
    assert("gte"@.len() == 3 && "lte"@.len() == 3);
    assert("dword"@ != "exists"@);
    assert("eq"@ != "exists"@ && "ne"@ != "exists"@ && "gt"@ != "exists"@);
    assert("gte"@ != "exists"@ && "lt"@ != "exists"@ && "lte"@ != "exists"@);
    assert("eq"@[0] == 'e' && "ne"@[0] == 'n' && "gt"@[0] == 'g' && "lt"@[0] == 'l');
    assert("gte"@[0] == 'g' && "lte"@[0] == 'l');
    assert("ne"@ != "eq"@ && "gt"@ != "eq"@ && "gt"@ != "ne"@);
    assert("gte"@ != "eq"@ && "gte"@ != "ne"@ && "gte"@ != "gt"@);
    assert("lt"@ != "eq"@ && "lt"@ != "ne"@ && "lt"@ != "gt"@ && "lt"@ != "gte"@);
    assert("lte"@ != "eq"@ && "lte"@ != "ne"@ && "lte"@ != "gt"@ && "lte"@ != "gte"@ && "lte"@ != "lt"@);
    assert forall|n: nat| n <= 0xffff_ffff implies #[trigger] expected_number(decimal(n)) == n by {
        lemma_decimal(n);
        let d = decimal(n);
        assert(d[0] != '+' && d[0] != '-') by {
            assert((d[0] as int) >= 48 && (d[0] as int) <= 57) by {
                assert(digit_value(d[0], 10) is Some);
            }
        }
        assert(unsigned_digits(d) == d);
    }
}

/// Law: an `sz` check of a string value that was read holds for `eq` exactly when the value
/// equals the expected text, and for `ne` exactly when it differs.
pub proof fn text_comparisons_hold_as_named(job: JobInfo, r: RegistryReading, t: String, expected: Seq<char>)
    requires
        r.key_opened,
        r.text == Some(t),
    ensures
        value_check(job, "sz"@, "eq"@, expected) ==> (prerequisite_holds(job, r) <==> t@ == expected),
        value_check(job, "sz"@, "ne"@, expected) ==> (prerequisite_holds(job, r) <==> t@ != expected),
{
    reveal_strlit("sz");
    reveal_strlit("dword");
    reveal_strlit("exists");
    reveal_strlit("eq");
    reveal_strlit("ne");
    assert("eq"@[0] == 'e' && "ne"@[0] == 'n');
    assert("sz"@.len() == 2 && "eq"@.len() == 2 && "ne"@.len() == 2);
    assert("dword"@.len() == 5 && "exists"@.len() == 6);
    assert("sz"@ != "exists"@ && "sz"@ != "dword"@);
    assert("eq"@ != "exists"@ && "ne"@ != "exists"@ && "ne"@ != "eq"@);
}

/// Law: a job without a non-empty key, or whose key could not be opened, never counts as
/// installed; with the key opened, a comparison `exists` (the default) on no value name
/// holds; a check of type `exists` (the default) on a named value holds exactly when that
/// value is present; and a check of any type other than `exists`, `dword` and `sz` on a
/// named value never holds.
pub proof fn existence_checks_hold_as_named(job: JobInfo, r: RegistryReading)
    ensures
        target_of(job) is None ==> !prerequisite_holds(job, r),
        !r.key_opened ==> !prerequisite_holds(job, r),
        ({
            &&& target_of(job) is Some
            &&& r.key_opened
            &&& text_or(job.pre_check_reg_compare, "exists"@) == "exists"@
            &&& text_or(job.pre_check_reg_value, ""@).len() == 0
        }) ==> prerequisite_holds(job, r),
        ({
            &&& target_of(job) is Some
            &&& text_or(job.pre_check_reg_type, "exists"@) == "exists"@
            &&& text_or(job.pre_check_reg_value, ""@).len() > 0
        }) ==> (prerequisite_holds(job, r) <==> r.key_opened && r.raw_present),
        ({
            let ty = text_or(job.pre_check_reg_type, "exists"@);
            &&& text_or(job.pre_check_reg_value, ""@).len() > 0
            &&& ty != "exists"@ && ty != "dword"@ && ty != "sz"@
        }) ==> !prerequisite_holds(job, r),
{
}

} // verus!
