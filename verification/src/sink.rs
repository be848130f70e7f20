//! The result sink's pure side: log records and file names.
//!
//! A finished run is persisted as one append-only CSV record:
//! `flagged, timedOut, elapsedSeconds` with six decimal places, and for
//! seeded scenarios additionally `, seed`.  Records are namespaced into
//! three buckets — general, guaranteed-deadlock and false-positive — by a
//! file name built from the scenario identifier and the backend identifier.
//! Elapsed time is carried as integer microseconds, so the six-decimal
//! rendering is exact.  The seed override arrives as an environment string;
//! parsing it is done here, exactly.

use vstd::prelude::*;

use crate::backend::Backend;
use vstd::string::StrSliceExecFns;
use vstd::string::StringExecFns;

verus! {

/// The decimal digit character for a value below ten.
pub open spec fn spec_digit(d: nat) -> char {
    if d == 0 {
        '0'
    } else if d == 1 {
        '1'
    } else if d == 2 {
        '2'
    } else if d == 3 {
        '3'
    } else if d == 4 {
        '4'
    } else if d == 5 {
        '5'
    } else if d == 6 {
        '6'
    } else if d == 7 {
        '7'
    } else if d == 8 {
        '8'
    } else {
        '9'
    }
}

/// The decimal rendering of a natural number, without leading zeros.
pub open spec fn spec_decimal(n: nat) -> Seq<char>
    decreases n,
{
    if n < 10 {
        seq![spec_digit(n)]
    } else {
        spec_decimal(n / 10).push(spec_digit(n % 10))
    }
}

/// The decimal rendering of `n` in exactly `w` digits, zero padded; the
/// value is taken modulo `10^w`.
pub open spec fn spec_fixed(n: nat, w: nat) -> Seq<char>
    decreases w,
{
    if w == 0 {
        Seq::empty()
    } else {
        spec_fixed(n / 10, (w - 1) as nat).push(spec_digit(n % 10))
    }
}

fn digit_str(d: u64) -> (r: &'static str)
    requires
        d < 10,
    ensures
        r@ == seq![spec_digit(d as nat)],
{
    proof {
        reveal_strlit("0");
        reveal_strlit("1");
        reveal_strlit("2");
        reveal_strlit("3");
        reveal_strlit("4");
        reveal_strlit("5");
        reveal_strlit("6");
        reveal_strlit("7");
        reveal_strlit("8");
        reveal_strlit("9");
    }
    let r: &'static str = match d {
        0 => "0",
        1 => "1",
        2 => "2",
        3 => "3",
        4 => "4",
        5 => "5",
        6 => "6",
        7 => "7",
        8 => "8",
        _ => "9",
    };
    proof {
        assert(r@ =~= seq![spec_digit(d as nat)]);
    }
    r
}

/// Render a value in decimal.
pub fn u64_to_decimal(n: u64) -> (r: String)
    ensures
        r@ == spec_decimal(n as nat),
    decreases n,
{
    if n < 10 {
        String::from_str(digit_str(n))
    } else {
        let mut s = u64_to_decimal(n / 10);
        s.append(digit_str(n % 10));
        proof {
            assert(s@ =~= spec_decimal(n as nat));
        }
        s
    }
}

/// Render a value in exactly `w` decimal digits, zero padded.
pub fn u64_to_fixed(n: u64, w: u64) -> (r: String)
    ensures
        r@ == spec_fixed(n as nat, w as nat),
    decreases w,
{
    if w == 0 {
        let s = String::new();
        proof {
            assert(s@ =~= spec_fixed(n as nat, 0));
        }
        s
    } else {
        let mut s = u64_to_fixed(n / 10, w - 1);
        s.append(digit_str(n % 10));
        proof {
            assert(s@ =~= spec_fixed(n as nat, w as nat));
        }
        s
    }
}

/// Elapsed wall-clock time in seconds with six decimal places, rendered
/// from integer microseconds.
pub open spec fn spec_elapsed(micros: nat) -> Seq<char> {
    spec_decimal(micros / 1000000) + seq!['.'] + spec_fixed(micros % 1000000, 6)
}

/// Render elapsed microseconds as `seconds.micros` with six decimal places.
pub fn format_elapsed_micros(micros: u64) -> (r: String)
    ensures
        r@ == spec_elapsed(micros as nat),
{
    let mut s = u64_to_decimal(micros / 1000000);
    s.append(".");
    let frac = u64_to_fixed(micros % 1000000, 6);
    s.append(frac.as_str());
    proof {
        reveal_strlit(".");
        assert(s@ =~= spec_elapsed(micros as nat));
    }
    s
}

/// `true` or `false`, as a log record writes it.
pub open spec fn spec_bool_str(b: bool) -> Seq<char> {
    if b {
        "true"@
    } else {
        "false"@
    }
}

fn bool_str(b: bool) -> (r: &'static str)
    ensures
        r@ == spec_bool_str(b),
{
    if b {
        "true"
    } else {
        "false"
    }
}

/// A non-seeded record: `flagged, timedOut, elapsedSeconds`.
pub open spec fn spec_log_entry_no_seed(flagged: bool, timed_out: bool, micros: nat) -> Seq<char> {
    spec_bool_str(flagged) + ", "@ + spec_bool_str(timed_out) + ", "@ + spec_elapsed(micros)
}

/// A seeded record: the non-seeded record plus `, seed`.
pub open spec fn spec_log_entry_with_seed(
    flagged: bool,
    timed_out: bool,
    micros: nat,
    seed: u64,
) -> Seq<char> {
    spec_log_entry_no_seed(flagged, timed_out, micros) + ", "@ + spec_decimal(seed as nat)
}

/// Format the log record of a non-seeded run.
pub fn log_entry_no_seed(flagged: bool, timed_out: bool, elapsed_micros: u64) -> (r: String)
    ensures
        r@ == spec_log_entry_no_seed(flagged, timed_out, elapsed_micros as nat),
{
    let mut s = String::from_str(bool_str(flagged));
    s.append(", ");
    s.append(bool_str(timed_out));
    s.append(", ");
    let e = format_elapsed_micros(elapsed_micros);
    s.append(e.as_str());
    proof {
        assert(s@ =~= spec_log_entry_no_seed(flagged, timed_out, elapsed_micros as nat));
    }
    s
}

/// Format the log record of a seeded run; the seed makes the run exactly
/// reproducible.
pub fn log_entry_with_seed(flagged: bool, timed_out: bool, elapsed_micros: u64, seed: u64) -> (r:
    String)
    ensures
        r@ == spec_log_entry_with_seed(flagged, timed_out, elapsed_micros as nat, seed),
{
    let mut s = log_entry_no_seed(flagged, timed_out, elapsed_micros);
    s.append(", ");
    let d = u64_to_decimal(seed);
    s.append(d.as_str());
    proof {
        assert(s@ =~= spec_log_entry_with_seed(flagged, timed_out, elapsed_micros as nat, seed));
    }
    s
}

/// File name of a general (possibly nondeterministic) scenario's log.
pub fn csv_filename(test_name: &str, backend: Backend) -> (r: String)
    ensures
        r@ == "deadlock_tests/"@ + test_name@ + "_"@ + backend.spec_name() + ".csv"@,
{
    let mut s = String::from_str("deadlock_tests/");
    append_name_parts(&mut s, test_name, backend);
    proof {
        assert(s@ =~= "deadlock_tests/"@ + test_name@ + "_"@ + backend.spec_name() + ".csv"@);
    }
    s
}

/// File name of a guaranteed-deadlock scenario's log.
pub fn csv_filename_guaranteed(test_name: &str, backend: Backend) -> (r: String)
    ensures
        r@ == "guaranteed_deadlock_tests/"@ + test_name@ + "_"@ + backend.spec_name() + ".csv"@,
{
    let mut s = String::from_str("guaranteed_deadlock_tests/");
    append_name_parts(&mut s, test_name, backend);
    proof {
        assert(s@ =~= "guaranteed_deadlock_tests/"@ + test_name@ + "_"@ + backend.spec_name()
            + ".csv"@);
    }
    s
}

/// File name of a false-positive scenario's log.
pub fn csv_filename_fp(test_name: &str, backend: Backend) -> (r: String)
    ensures
        r@ == "fp_tests/"@ + test_name@ + "_"@ + backend.spec_name() + ".csv"@,
{
    let mut s = String::from_str("fp_tests/");
    append_name_parts(&mut s, test_name, backend);
    proof {
        assert(s@ =~= "fp_tests/"@ + test_name@ + "_"@ + backend.spec_name() + ".csv"@);
    }
    s
}

fn append_name_parts(s: &mut String, test_name: &str, backend: Backend)
    ensures
        final(s)@ == old(s)@ + test_name@ + "_"@ + backend.spec_name() + ".csv"@,
{
    s.append(test_name);
    s.append("_");
    s.append(crate::backend::feature_name(backend));
    s.append(".csv");
    proof {
        assert(s@ =~= old(s)@ + test_name@ + "_"@ + backend.spec_name() + ".csv"@);
    }
}

/// Whether a character is a decimal digit.
pub open spec fn is_digit(c: char) -> bool {
    '0' <= c <= '9'
}

pub open spec fn all_digits(s: Seq<char>) -> bool {
    forall|i: int| 0 <= i < s.len() ==> is_digit(#[trigger] s[i])
}

/// The numeric value of a digit character.
pub open spec fn digit_val(c: char) -> nat {
    (c as nat - '0' as nat) as nat
}

/// The value a digit string denotes.
pub open spec fn spec_parse_val(s: Seq<char>) -> nat
    decreases s.len(),
{
    if s.len() == 0 {
        0
    } else {
        spec_parse_val(s.drop_last()) * 10 + digit_val(s.last())
    }
}

proof fn lemma_parse_take_step(s: Seq<char>, i: int)
    requires
        0 <= i < s.len(),
    ensures
        spec_parse_val(s.take(i + 1)) == spec_parse_val(s.take(i)) * 10 + digit_val(s[i]),
{
    assert(s.take(i + 1).drop_last() =~= s.take(i));
    assert(s.take(i + 1).last() == s[i]);
}

proof fn lemma_parse_prefix_le(s: Seq<char>, k: int)
    requires
        0 <= k <= s.len(),
    ensures
        spec_parse_val(s.take(k)) <= spec_parse_val(s),
    decreases s.len() - k,
{
    if k < s.len() {
        lemma_parse_take_step(s, k);
        assert(spec_parse_val(s.take(k)) * 10 >= spec_parse_val(s.take(k)));
        lemma_parse_prefix_le(s, k + 1);
    } else {
        assert(s.take(k) =~= s);
    }
}

/// Parse a decimal seed override.  Returns the value exactly when the
/// string is a nonempty run of digits whose value fits in 64 bits; any
/// other string (as the environment may hold) is rejected.
pub fn parse_seed(s: &str) -> (r: Option<u64>)
    ensures
        r is Some <==> s@.len() > 0 && all_digits(s@) && spec_parse_val(s@) <= u64::MAX,
        r is Some ==> r->0 == spec_parse_val(s@),
{
    let n = s.unicode_len();
    if n == 0 {
        return None;
    }
    let mut val: u64 = 0;
    let mut i: usize = 0;
    while i < n
        invariant
            n == s@.len(),
            0 <= i <= n,
            forall|j: int| 0 <= j < i ==> is_digit(#[trigger] s@[j]),
            val == spec_parse_val(s@.take(i as int)),
        decreases n - i,
    {
        let c = s.get_char(i);
        if c < '0' || c > '9' {
            assert(!is_digit(s@[i as int]));
            return None;
        }
        let d: u64 = (c as u32 - '0' as u32) as u64;
        assert(d == digit_val(s@[i as int]));
        if val > (u64::MAX - d) / 10 {
            proof {
                assert(val * 10 + d > u64::MAX) by (nonlinear_arith)
                    requires
                        val > (u64::MAX - d) / 10,
                        d < 10,
                ;
                lemma_parse_take_step(s@, i as int);
                lemma_parse_prefix_le(s@, i as int + 1);
            }
            return None;
        }
        proof {
            assert(val * 10 + d <= u64::MAX) by (nonlinear_arith)
                requires
                    val <= (u64::MAX - d) / 10,
                    d < 10,
            ;
            lemma_parse_take_step(s@, i as int);
        }
        val = val * 10 + d;
        i = i + 1;
    }
    assert(s@.take(n as int) =~= s@);
    Some(val)
}

/// Resolve the seed of a run: the explicit override when one was supplied,
/// else the high-resolution clock reading taken at startup.  The resolved
/// seed is always recorded in the run's log record, so one probabilistic
/// run can be reproduced exactly.
pub fn resolve_seed(override_seed: Option<u64>, clock_nanos: u64) -> (r: u64)
    ensures
        r == match override_seed {
            Some(s) => s,
            None => clock_nanos,
        },
{
    match override_seed {
        Some(s) => s,
        None => clock_nanos,
    }
}

} // verus!
