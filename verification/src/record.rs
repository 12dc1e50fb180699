//! Parsing one line of the audio server's sink listing into a structured
//! record: a numeric identifier followed by the rest of the description.

use vstd::prelude::*;

verus! {

/// One ASCII decimal digit.
pub open spec fn is_digit_char(c: char) -> bool {
    '0' as int <= c as int && c as int <= '9' as int
}

/// Numeric value of one ASCII decimal digit.
pub open spec fn digit_val(c: char) -> nat {
    (c as int - '0' as int) as nat
}

/// Length of the run of ASCII decimal digits at the start of `s`.
pub open spec fn digit_run_len(s: Seq<char>) -> nat
    decreases s.len(),
{
    if s.len() == 0 || !is_digit_char(s[0]) {
        0
    } else {
        1 + digit_run_len(s.drop_first())
    }
}

/// Value of a sequence of digit characters read in base ten, most significant
/// digit first.
pub open spec fn digits_val(s: Seq<char>) -> nat
    decreases s.len(),
{
    if s.len() == 0 {
        0
    } else {
        digits_val(s.drop_last()) * 10 + digit_val(s.last())
    }
}

/// The leading digit run of `s`.
pub open spec fn leading_digits(s: Seq<char>) -> Seq<char> {
    s.take(digit_run_len(s) as int)
}

/// Numeric value of the leading digit run of `s`.
pub open spec fn sink_id_of(s: Seq<char>) -> nat {
    digits_val(leading_digits(s))
}

/// A line parses as a sink record when it starts with at least one digit and
/// the digit run's value fits the identifier type.
pub open spec fn parses(s: Seq<char>) -> bool {
    digit_run_len(s) > 0 && sink_id_of(s) <= usize::MAX
}

/// A line parses exactly when it begins with an ASCII decimal digit and the
/// value of its leading digit run fits the identifier type; a line that does
/// not begin with a digit never parses.
pub proof fn lemma_parses_iff_digit_start(s: Seq<char>)
    ensures
        parses(s) <==> (s.len() > 0 && is_digit_char(s[0]) && sink_id_of(s) <= usize::MAX),
{
}

/// Error for a listing line that does not begin with a usable decimal
/// identifier; carries the offending line for diagnostics.
#[derive(Debug)]
pub struct ParseError {
    pub line: String,
}

/// One audio output device as reported by the audio server: the numeric
/// identifier the server assigned and the full description line it came from.
#[derive(Debug)]
pub struct Sink {
    pub id: usize,
    pub desc: String,
}

impl Sink {
    /// The identifier always equals the value of the run of decimal digits at
    /// the start of the description.
    pub open spec fn wf(self) -> bool {
        parses(self.desc@) && self.id as nat == sink_id_of(self.desc@)
    }

    /// Parses one listing line: collects the leading ASCII decimal digits and
    /// reads them as the sink identifier. Fails when the line starts with no
    /// digit or the value overflows the identifier type.
    pub fn new(desc: String) -> (r: Result<Self, ParseError>)
        ensures
            parses(desc@) <==> r is Ok,
            r matches Ok(sink) ==> sink.wf() && sink.desc@ == desc@ && sink.id as nat
                == sink_id_of(desc@),
            r matches Err(e) ==> e.line@ == desc@,
    {
        let s = desc.as_str();
        let len = s.unicode_len();
        let ghost vs = desc@;

        let mut i: usize = 0;
        while i < len
            invariant
                len == vs.len(),
                s@ == vs,
                desc@ == vs,
                0 <= i <= len,
                forall|j: int| 0 <= j < i ==> is_digit_char(vs[j]),
            ensures
                0 <= i <= len,
                s@ == vs,
                len == vs.len(),
                forall|j: int| 0 <= j < i ==> is_digit_char(vs[j]),
                i < len ==> !is_digit_char(vs[i as int]),
            decreases len - i,
        {
            if !digit_at(s, i) {
                break ;
            }
            i += 1;
        }
        proof {
            lemma_digit_run_len_from_scan(vs, i as int);
        }
        let n = i;
        if n == 0 {
            return Err(ParseError { line: desc });
        }

        let mut value: usize = 0;
        let mut j: usize = 0;
        while j < n
            invariant
                len == vs.len(),
                s@ == vs,
                desc@ == vs,
                n == digit_run_len(vs),
                0 < n <= len,
                forall|k: int| 0 <= k < n ==> is_digit_char(vs[k]),
                0 <= j <= n,
                value == digits_val(vs.take(j as int)),
            decreases n - j,
        {
            let c = s.get_char(j);
            let d = digit_value(c);
            proof {
                assert(vs.take(j + 1).drop_last() =~= vs.take(j as int));
                assert(vs.take(j + 1).last() == vs[j as int]);
            }
            let next = match value.checked_mul(10) {
                Some(v10) => v10.checked_add(d),
                None => None,
            };
            match next {
                Some(v) => {
                    value = v;
                }
                None => {
                    proof {
                        lemma_digits_val_prefix_le(leading_digits(vs), j + 1);
                        assert(leading_digits(vs).take(j + 1) =~= vs.take(j + 1));
                    }
                    return Err(ParseError { line: desc });
                }
            }
            j += 1;
        }
        proof {
            assert(vs.take(n as int) =~= leading_digits(vs));
        }
        Ok(Sink { id: value, desc })
    }
}

/// Tests whether the character at position `i` is an ASCII decimal digit.
fn digit_at(s: &str, i: usize) -> (r: bool)
    requires
        i < s@.len(),
    ensures
        r == is_digit_char(s@[i as int]),
{
    let c = s.get_char(i);
    let u = c as u32;
    48 <= u && u <= 57
}

/// Numeric value of a digit character.
fn digit_value(c: char) -> (d: usize)
    requires
        is_digit_char(c),
    ensures
        d == digit_val(c),
        d <= 9,
{
    let u = c as u32;
    (u - 48) as usize
}

/// A digit run's value only grows as more digits are appended: the value of a
/// prefix never exceeds the value of the whole.
proof fn lemma_digits_val_prefix_le(t: Seq<char>, n: int)
    requires
        0 <= n <= t.len(),
    ensures
        digits_val(t.take(n)) <= digits_val(t),
    decreases t.len(),
{
    if n < t.len() {
        lemma_digits_val_prefix_le(t.drop_last(), n);
        assert(t.drop_last().take(n) =~= t.take(n));
        assert(digits_val(t.drop_last()) * 10 >= digits_val(t.drop_last()) * 1);
    } else {
        assert(t.take(n) =~= t);
    }
}

/// A scan that saw digits up to `i` and a non-digit (or the end) at `i` has
/// found exactly the leading digit run.
proof fn lemma_digit_run_len_from_scan(s: Seq<char>, i: int)
    requires
        0 <= i <= s.len(),
        forall|j: int| 0 <= j < i ==> is_digit_char(s[j]),
        i < s.len() ==> !is_digit_char(s[i]),
    ensures
        digit_run_len(s) == i,
    decreases s.len(),
{
    if i == 0 {
    } else {
        assert(is_digit_char(s[0]));
        let t = s.drop_first();
        assert(forall|j: int| 0 <= j < i - 1 ==> t[j] == s[j + 1]);
        lemma_digit_run_len_from_scan(t, i - 1);
    }
}

} // verus!
