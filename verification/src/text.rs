//! Verified text for the bundle's `info.json` side files: decimal
//! rendering of counts, JSON string escaping, emission of the two-key
//! info objects, and a parser that inverts emission exactly.
//!
//! The parser tolerates whitespace, any member order and unknown members
//! with flat values (strings, numbers, `true`, `false`, `null`); nested
//! values in unknown members are not accepted.

use vstd::prelude::*;

verus! {

/// The character of one decimal digit.
pub open spec fn digit_char(d: int) -> char {
    if d == 0 {
        '0'
    } else if d == 1 {
        '1'
    } else if d == 2 {
        '2'
    } else if d == 3 {
        '3'
    } else if d == 4 {
        '4'
    } else if d == 5 {
        '5'
    } else if d == 6 {
        '6'
    } else if d == 7 {
        '7'
    } else if d == 8 {
        '8'
    } else {
        '9'
    }
}

/// The decimal digits of `n`, most significant first.
pub open spec fn dec_digits(n: nat) -> Seq<char>
    decreases n,
{
    if n < 10 {
        seq![digit_char(n as int)]
    } else {
        dec_digits(n / 10).push(digit_char((n % 10) as int))
    }
}

pub open spec fn is_digit(c: char) -> bool {
    '0' <= c && c <= '9'
}

pub open spec fn digit_val(c: char) -> int {
    c as int - '0' as int
}

/// Characters that the JSON emitter escapes inside a string.
pub open spec fn is_special(c: char) -> bool {
    c == '"' || c == '\\' || c == '\n' || c == '\r' || c == '\t'
}

/// The escaped form of one character.
pub open spec fn esc_char(c: char) -> Seq<char> {
    if c == '"' {
        seq!['\\', '"']
    } else if c == '\\' {
        seq!['\\', '\\']
    } else if c == '\n' {
        seq!['\\', 'n']
    } else if c == '\r' {
        seq!['\\', 'r']
    } else if c == '\t' {
        seq!['\\', 't']
    } else {
        seq![c]
    }
}

/// The escaped form of a string's characters.
pub open spec fn esc(s: Seq<char>) -> Seq<char>
    decreases s.len(),
{
    if s.len() == 0 {
        Seq::empty()
    } else {
        esc_char(s[0]) + esc(s.drop_first())
    }
}

/// Escaping extends on the right, one character at a time.
pub proof fn lemma_esc_snoc(s: Seq<char>, i: int)
    requires
        0 <= i < s.len(),
    ensures
        esc(s.take(i + 1)) == esc(s.take(i)) + esc_char(s[i]),
    decreases i,
{
    if i == 0 {
        assert(s.take(1)[0] == s[0]);
        assert(s.take(1).drop_first() =~= Seq::<char>::empty());
        assert(s.take(0) =~= Seq::<char>::empty());
        assert(esc(s.take(1)) =~= esc(s.take(0)) + esc_char(s[0]));
    } else {
        let t = s.drop_first();
        lemma_esc_snoc(t, i - 1);
        assert(s.take(i + 1)[0] == s[0]);
        assert(s.take(i + 1).drop_first() =~= t.take(i));
        assert(s.take(i)[0] == s[0]);
        assert(s.take(i).drop_first() =~= t.take(i - 1));
        assert(t[i - 1] == s[i]);
        assert(esc(s.take(i + 1)) == esc_char(s[0]) + esc(t.take(i)));
        assert(esc_char(s[0]) + (esc(t.take(i - 1)) + esc_char(s[i])) =~= (esc_char(s[0]) + esc(
            t.take(i - 1),
        )) + esc_char(s[i]));
    }
}

/// A string without special characters escapes to itself.
pub proof fn lemma_esc_id(s: Seq<char>)
    requires
        forall|i: int| 0 <= i < s.len() ==> !is_special(s[i]),
    ensures
        esc(s) == s,
    decreases s.len(),
{
    if s.len() > 0 {
        lemma_esc_id(s.drop_first());
        assert(esc(s) =~= s);
    }
}

/// Pushes the decimal digits of `n` onto a character buffer.
pub fn push_digits(v: &mut Vec<char>, n: u64)
    ensures
        final(v)@ == old(v)@ + dec_digits(n as nat),
    decreases n,
{
    if n < 10 {
        let c: char = match n {
            0 => '0',
            1 => '1',
            2 => '2',
            3 => '3',
            4 => '4',
            5 => '5',
            6 => '6',
            7 => '7',
            8 => '8',
            _ => '9',
        };
        v.push(c);
        proof {
            assert(old(v)@ + dec_digits(n as nat) =~= old(v)@.push(digit_char(n as int)));
        }
    } else {
        push_digits(v, n / 10);
        let d = n % 10;
        let c: char = match d {
            0 => '0',
            1 => '1',
            2 => '2',
            3 => '3',
            4 => '4',
            5 => '5',
            6 => '6',
            7 => '7',
            8 => '8',
            _ => '9',
        };
        v.push(c);
        proof {
            assert(old(v)@ + dec_digits(n as nat) =~= (old(v)@ + dec_digits((n / 10) as nat)).push(
                digit_char((n % 10) as int),
            ));
        }
    }
}

/// Pushes the characters of a string slice onto a character buffer.
pub fn push_str_chars(v: &mut Vec<char>, s: &str)
    ensures
        final(v)@ == old(v)@ + s@,
{
    let n = s.unicode_len();
    let mut i: usize = 0;
    while i < n
        invariant
            i <= n,
            n == s@.len(),
            v@ == old(v)@ + s@.take(i as int),
        decreases n - i,
    {
        let c = s.get_char(i);
        v.push(c);
        proof {
            assert(old(v)@ + s@.take(i as int + 1) =~= (old(v)@ + s@.take(i as int)).push(
                s@[i as int],
            ));
        }
        i += 1;
    }
    proof {
        assert(s@.take(n as int) =~= s@);
    }
}

/// Pushes the escaped form of a string's characters onto a buffer.
pub fn push_escaped(v: &mut Vec<char>, s: &str)
    ensures
        final(v)@ == old(v)@ + esc(s@),
{
    let n = s.unicode_len();
    let mut i: usize = 0;
    proof {
        assert(esc(s@.take(0)) =~= Seq::<char>::empty());
        assert(v@ =~= v@ + esc(s@.take(0)));
    }
    while i < n
        invariant
            i <= n,
            n == s@.len(),
            v@ == old(v)@ + esc(s@.take(i as int)),
        decreases n - i,
    {
        let c = s.get_char(i);
        if c == '"' {
            v.push('\\');
            v.push('"');
        } else if c == '\\' {
            v.push('\\');
            v.push('\\');
        } else if c == '\n' {
            v.push('\\');
            v.push('n');
        } else if c == '\r' {
            v.push('\\');
            v.push('r');
        } else if c == '\t' {
            v.push('\\');
            v.push('t');
        } else {
            v.push(c);
        }
        proof {
            lemma_esc_snoc(s@, i as int);
            assert(v@ =~= old(v)@ + esc(s@.take(i as int + 1)));
        }
        i += 1;
    }
    proof {
        assert(s@.take(n as int) =~= s@);
    }
}

/// Relies on `String::from_iter` over `Vec<char>`: the resulting string
/// holds exactly the given characters, in order.
#[verifier::external_body]
pub fn chars_to_string(v: Vec<char>) -> (r: String)
    ensures
        r@ == v@,
{
    v.into_iter().collect()
}

/// The characters of a string slice, as a vector.
pub fn chars_of(s: &str) -> (r: Vec<char>)
    ensures
        r@ == s@,
{
    let n = s.unicode_len();
    let mut out: Vec<char> = Vec::new();
    let mut i: usize = 0;
    while i < n
        invariant
            i <= n,
            n == s@.len(),
            out@ == s@.take(i as int),
        decreases n - i,
    {
        out.push(s.get_char(i));
        proof {
            assert(s@.take(i as int + 1) =~= s@.take(i as int).push(s@[i as int]));
        }
        i += 1;
    }
    proof {
        assert(s@.take(n as int) =~= s@);
    }
    out
}

/// The decimal rendering of a count.
pub fn u64_to_string(n: u64) -> (r: String)
    ensures
        r@ == dec_digits(n as nat),
{
    let mut v: Vec<char> = Vec::new();
    push_digits(&mut v, n);
    proof {
        assert(v@ =~= dec_digits(n as nat));
    }
    chars_to_string(v)
}

/// The serialized form of a batch's `info.json`: its description and
/// its number of runs.
pub open spec fn info_json_root(d: Seq<char>, n: nat) -> Seq<char> {
    "{\"description\":\""@ + esc(d) + "\",\"runs_count\":"@ + dec_digits(n) + "}"@
}

/// The serialized form of one run's `info.json`: its description and
/// its scenario's name.
pub open spec fn info_json_run(d: Seq<char>, a: Seq<char>) -> Seq<char> {
    "{\"description\":\""@ + esc(d) + "\",\"assumptions\":\""@ + esc(a) + "\"}"@
}

/// Emits a batch `info.json`.
pub fn emit_info_root(description: &str, runs_count: u64) -> (r: String)
    ensures
        r@ == info_json_root(description@, runs_count as nat),
{
    let mut v: Vec<char> = Vec::new();
    push_str_chars(&mut v, "{\"description\":\"");
    push_escaped(&mut v, description);
    push_str_chars(&mut v, "\",\"runs_count\":");
    push_digits(&mut v, runs_count);
    push_str_chars(&mut v, "}");
    proof {
        assert(v@ =~= info_json_root(description@, runs_count as nat));
    }
    chars_to_string(v)
}

/// Emits one run's `info.json`.
pub fn emit_info_run(description: &str, assumptions_name: &str) -> (r: String)
    ensures
        r@ == info_json_run(description@, assumptions_name@),
{
    let mut v: Vec<char> = Vec::new();
    push_str_chars(&mut v, "{\"description\":\"");
    push_escaped(&mut v, description);
    push_str_chars(&mut v, "\",\"assumptions\":\"");
    push_escaped(&mut v, assumptions_name);
    push_str_chars(&mut v, "\"}");
    proof {
        assert(v@ =~= info_json_run(description@, assumptions_name@));
    }
    chars_to_string(v)
}

pub open spec fn is_ws(c: char) -> bool {
    c == ' ' || c == '\t' || c == '\n' || c == '\r'
}

/// The first position at or after `i` holding no whitespace.
pub open spec fn p_ws(s: Seq<char>, i: int) -> int
    decreases s.len() - i,
{
    if 0 <= i < s.len() && is_ws(s[i]) {
        p_ws(s, i + 1)
    } else {
        i
    }
}

pub proof fn lemma_p_ws_bounds(s: Seq<char>, i: int)
    requires
        0 <= i <= s.len(),
    ensures
        i <= p_ws(s, i) <= s.len(),
    decreases s.len() - i,
{
    if i < s.len() && is_ws(s[i]) {
        lemma_p_ws_bounds(s, i + 1);
    }
}

/// What one escape letter stands for.
pub open spec fn unesc_char(c: char) -> Option<char> {
    if c == '"' {
        Some('"')
    } else if c == '\\' {
        Some('\\')
    } else if c == '/' {
        Some('/')
    } else if c == 'n' {
        Some('\n')
    } else if c == 'r' {
        Some('\r')
    } else if c == 't' {
        Some('\t')
    } else {
        None
    }
}

/// Parses the body of a JSON string, from just after the opening quote
/// to just past the closing quote.
pub open spec fn p_string_inner(s: Seq<char>, i: int) -> Option<(Seq<char>, int)>
    decreases s.len() - i,
{
    if i < 0 || i >= s.len() {
        None
    } else if s[i] == '"' {
        Some((Seq::empty(), i + 1))
    } else if s[i] == '\\' {
        if i + 1 >= s.len() {
            None
        } else {
            match unesc_char(s[i + 1]) {
                Some(c) => match p_string_inner(s, i + 2) {
                    Some((t, j)) => Some((seq![c] + t, j)),
                    None => None,
                },
                None => None,
            }
        }
    } else {
        match p_string_inner(s, i + 1) {
            Some((t, j)) => Some((seq![s[i]] + t, j)),
            None => None,
        }
    }
}

/// Parses a JSON string starting at its opening quote.
pub open spec fn p_string(s: Seq<char>, i: int) -> Option<(Seq<char>, int)> {
    if 0 <= i < s.len() && s[i] == '"' {
        p_string_inner(s, i + 1)
    } else {
        None
    }
}

pub proof fn lemma_p_string_inner_advances(s: Seq<char>, i: int)
    ensures
        p_string_inner(s, i) matches Some((t, j)) ==> i < j <= s.len(),
    decreases s.len() - i,
{
    if 0 <= i < s.len() {
        if s[i] == '\\' {
            if i + 1 < s.len() {
                lemma_p_string_inner_advances(s, i + 2);
            }
        } else if s[i] != '"' {
            lemma_p_string_inner_advances(s, i + 1);
        }
    }
}

pub proof fn lemma_p_string_advances(s: Seq<char>, i: int)
    ensures
        p_string(s, i) matches Some((t, j)) ==> i < j <= s.len(),
{
    lemma_p_string_inner_advances(s, i + 1);
}

/// Parses a run of decimal digits, folding them into `acc`; stops at the
/// first non-digit and fails only when the value leaves the `u64` range.
pub open spec fn p_digits(s: Seq<char>, i: int, acc: nat) -> Option<(nat, int)>
    decreases s.len() - i,
{
    if 0 <= i < s.len() && is_digit(s[i]) {
        if acc * 10 + digit_val(s[i]) > u64::MAX {
            None
        } else {
            p_digits(s, i + 1, (acc * 10 + digit_val(s[i])) as nat)
        }
    } else {
        Some((acc, i))
    }
}

/// Parses an unsigned decimal number: at least one digit.
pub open spec fn p_number(s: Seq<char>, i: int) -> Option<(nat, int)> {
    if 0 <= i < s.len() && is_digit(s[i]) {
        p_digits(s, i, 0)
    } else {
        None
    }
}

pub proof fn lemma_p_number_advances(s: Seq<char>, i: int)
    requires
        0 <= i <= s.len(),
    ensures
        p_number(s, i) matches Some((v, j)) ==> i < j <= s.len() && v <= u64::MAX,
{
    if 0 <= i < s.len() && is_digit(s[i]) {
        lemma_p_digits_advances_precise(s, i, 0);
    }
}

proof fn lemma_p_digits_advances_precise(s: Seq<char>, i: int, acc: nat)
    requires
        0 <= i < s.len(),
        is_digit(s[i]),
        acc <= u64::MAX,
    ensures
        p_digits(s, i, acc) matches Some((v, j)) ==> i < j <= s.len() && v <= u64::MAX,
    decreases s.len() - i,
{
    if !(acc * 10 + digit_val(s[i]) > u64::MAX) {
        let acc2 = (acc * 10 + digit_val(s[i])) as nat;
        if i + 1 < s.len() && is_digit(s[i + 1]) {
            lemma_p_digits_advances_precise(s, i + 1, acc2);
        }
    }
}

/// Characters that may make up a flat non-string JSON value: digits,
/// signs, a decimal point, an exponent mark, and the letters of `true`,
/// `false` and `null`.
pub open spec fn is_value_char(c: char) -> bool {
    is_digit(c) || ('a' <= c && c <= 'z') || c == '-' || c == '+' || c == '.' || c == 'E'
}

/// The end of a run of flat-value characters.
pub open spec fn p_value_run(s: Seq<char>, i: int) -> int
    decreases s.len() - i,
{
    if 0 <= i < s.len() && is_value_char(s[i]) {
        p_value_run(s, i + 1)
    } else {
        i
    }
}

pub proof fn lemma_p_value_run_bounds(s: Seq<char>, i: int)
    requires
        0 <= i <= s.len(),
    ensures
        i <= p_value_run(s, i) <= s.len(),
    decreases s.len() - i,
{
    if i < s.len() && is_value_char(s[i]) {
        lemma_p_value_run_bounds(s, i + 1);
    }
}

/// Skips one flat member value: a string, or a run of flat-value
/// characters (a number, `true`, `false` or `null`).
pub open spec fn p_skip_value(s: Seq<char>, i: int) -> Option<int> {
    if 0 <= i < s.len() && s[i] == '"' {
        match p_string(s, i) {
            Some((t, j)) => Some(j),
            None => None,
        }
    } else if 0 <= i < s.len() && is_value_char(s[i]) {
        Some(p_value_run(s, i))
    } else {
        None
    }
}

pub proof fn lemma_p_skip_value_advances(s: Seq<char>, i: int)
    requires
        0 <= i <= s.len(),
    ensures
        p_skip_value(s, i) matches Some(j) ==> i < j <= s.len(),
{
    if 0 <= i < s.len() && s[i] == '"' {
        lemma_p_string_advances(s, i);
    } else if 0 <= i < s.len() && is_value_char(s[i]) {
        lemma_p_value_run_bounds(s, i + 1);
    }
}

/// Parses the members of a batch `info.json` object, carrying whichever
/// of the two known keys have been seen; unknown members with flat
/// values are ignored, and on a repeated key the last value wins.
pub open spec fn p_members_root(
    s: Seq<char>,
    i: int,
    dopt: Option<Seq<char>>,
    copt: Option<nat>,
) -> Option<(Option<Seq<char>>, Option<nat>)>
    decreases s.len() - i,
    via p_members_root_dec
{
    let k0 = p_ws(s, i);
    match p_string(s, k0) {
        None => None,
        Some((key, j)) => {
            let j2 = p_ws(s, j);
            if !(0 <= j2 < s.len() && s[j2] == ':') {
                None
            } else {
                let j3 = p_ws(s, j2 + 1);
                let vres: Option<(Option<Seq<char>>, Option<nat>, int)> = if key
                    == "description"@ {
                    match p_string(s, j3) {
                        Some((v, j4)) => Some((Some(v), copt, j4)),
                        None => None,
                    }
                } else if key == "runs_count"@ {
                    match p_number(s, j3) {
                        Some((v, j4)) => Some((dopt, Some(v), j4)),
                        None => None,
                    }
                } else {
                    match p_skip_value(s, j3) {
                        Some(j4) => Some((dopt, copt, j4)),
                        None => None,
                    }
                };
                match vres {
                    None => None,
                    Some((d2, c2, j4)) => {
                        let j5 = p_ws(s, j4);
                        if 0 <= j5 < s.len() && s[j5] == ',' {
                            p_members_root(s, j5 + 1, d2, c2)
                        } else if 0 <= j5 < s.len() && s[j5] == '}' {
                            Some((d2, c2))
                        } else {
                            None
                        }
                    },
                }
            }
        },
    }
}

#[via_fn]
proof fn p_members_root_dec(s: Seq<char>, i: int, dopt: Option<Seq<char>>, copt: Option<nat>) {
    lemma_members_step_advances(s, i);
}

/// Along any path where a member parse reaches its trailing comma, the
/// position after the comma lies strictly beyond the starting position.
pub proof fn lemma_members_step_advances(s: Seq<char>, i: int)
    ensures
        ({
            let k0 = p_ws(s, i);
            p_string(s, k0) matches Some((key, j)) ==> {
                let j2 = p_ws(s, j);
                (0 <= j2 < s.len() && s[j2] == ':') ==> {
                    let j3 = p_ws(s, j2 + 1);
                    &&& (p_string(s, j3) matches Some((v, j4)) ==> i < j4 <= s.len())
                    &&& (p_number(s, j3) matches Some((v, j4)) ==> i < j4 <= s.len())
                    &&& (p_skip_value(s, j3) matches Some(j4) ==> i < j4 <= s.len())
                    &&& (forall|j4: int|
                        i < j4 <= s.len() ==> i < #[trigger] p_ws(s, j4) + 1 && p_ws(s, j4)
                            <= s.len())
                }
            }
        }),
{
    let k0 = p_ws(s, i);
    if p_string(s, k0) is Some {
        // a successful key parse pins k0 inside the sequence
        assert(0 <= k0 < s.len());
        if i >= 0 {
            lemma_p_ws_bounds(s, i);
        }
        lemma_p_string_advances(s, k0);
        let j = p_string(s, k0)->Some_0.1;
        let j2 = p_ws(s, j);
        lemma_p_ws_bounds(s, j);
        if 0 <= j2 < s.len() && s[j2] == ':' {
            let j3 = p_ws(s, j2 + 1);
            lemma_p_ws_bounds(s, j2 + 1);
            lemma_p_string_advances(s, j3);
            lemma_p_number_advances(s, j3);
            lemma_p_skip_value_advances(s, j3);
            assert forall|j4: int| i < j4 <= s.len() implies i < #[trigger] p_ws(s, j4) + 1 && p_ws(
                s,
                j4,
            ) <= s.len() by {
                lemma_p_ws_bounds(s, j4);
            }
        }
    }
}

/// Parses the members of one run's `info.json` object, carrying the
/// description and the scenario name.
pub open spec fn p_members_run(
    s: Seq<char>,
    i: int,
    dopt: Option<Seq<char>>,
    aopt: Option<Seq<char>>,
) -> Option<(Option<Seq<char>>, Option<Seq<char>>)>
    decreases s.len() - i,
    via p_members_run_dec
{
    let k0 = p_ws(s, i);
    match p_string(s, k0) {
        None => None,
        Some((key, j)) => {
            let j2 = p_ws(s, j);
            if !(0 <= j2 < s.len() && s[j2] == ':') {
                None
            } else {
                let j3 = p_ws(s, j2 + 1);
                let vres: Option<(Option<Seq<char>>, Option<Seq<char>>, int)> = if key
                    == "description"@ {
                    match p_string(s, j3) {
                        Some((v, j4)) => Some((Some(v), aopt, j4)),
                        None => None,
                    }
                } else if key == "assumptions"@ {
                    match p_string(s, j3) {
                        Some((v, j4)) => Some((dopt, Some(v), j4)),
                        None => None,
                    }
                } else {
                    match p_skip_value(s, j3) {
                        Some(j4) => Some((dopt, aopt, j4)),
                        None => None,
                    }
                };
                match vres {
                    None => None,
                    Some((d2, a2, j4)) => {
                        let j5 = p_ws(s, j4);
                        if 0 <= j5 < s.len() && s[j5] == ',' {
                            p_members_run(s, j5 + 1, d2, a2)
                        } else if 0 <= j5 < s.len() && s[j5] == '}' {
                            Some((d2, a2))
                        } else {
                            None
                        }
                    },
                }
            }
        },
    }
}

#[via_fn]
proof fn p_members_run_dec(s: Seq<char>, i: int, dopt: Option<Seq<char>>, aopt: Option<Seq<char>>) {
    lemma_members_step_advances(s, i);
}

/// Parses a whole batch `info.json`: the description and run count, as
/// far as the text supplies them.
pub open spec fn p_info_root(s: Seq<char>) -> Option<(Option<Seq<char>>, Option<nat>)> {
    let i = p_ws(s, 0);
    if 0 <= i < s.len() && s[i] == '{' {
        p_members_root(s, i + 1, None, None)
    } else {
        None
    }
}

/// Parses one run's whole `info.json`: the description and scenario
/// name, as far as the text supplies them.
pub open spec fn p_info_run(s: Seq<char>) -> Option<(Option<Seq<char>>, Option<Seq<char>>)> {
    let i = p_ws(s, 0);
    if 0 <= i < s.len() && s[i] == '{' {
        p_members_run(s, i + 1, None, None)
    } else {
        None
    }
}

/// Executable whitespace skip.
fn skip_ws(s: &Vec<char>, i: usize) -> (r: usize)
    requires
        i <= s@.len(),
    ensures
        r == p_ws(s@, i as int),
        i <= r <= s@.len(),
{
    let n = s.len();
    let mut k = i;
    while k < n && (s[k] == ' ' || s[k] == '\t' || s[k] == '\n' || s[k] == '\r')
        invariant
            i <= k <= n,
            n == s@.len(),
            p_ws(s@, i as int) == p_ws(s@, k as int),
        decreases n - k,
    {
        k += 1;
    }
    k
}

/// Executable JSON string parse, mirroring [`p_string`].
fn parse_string_at(s: &Vec<char>, i: usize) -> (r: Option<(Vec<char>, usize)>)
    requires
        i <= s@.len(),
    ensures
        r matches Some((t, j)) ==> p_string(s@, i as int) == Some((t@, j as int)) && i < j
            <= s@.len(),
        r is None ==> p_string(s@, i as int) is None,
{
    let n = s.len();
    if !(i < n && s[i] == '"') {
        return None;
    }
    let mut buf: Vec<char> = Vec::new();
    let mut k = i + 1;
    while k < n
        invariant
            i + 1 <= k <= n,
            n == s@.len(),
            i < s@.len() && s@[i as int] == '"',
            (match p_string_inner(s@, k as int) {
                Some((t, j)) => p_string_inner(s@, i + 1 as int) == Some((buf@ + t, j)),
                None => p_string_inner(s@, i + 1 as int) is None,
            }),
        decreases n - k,
    {
        let c = s[k];
        if c == '"' {
            proof {
                assert(buf@ + Seq::<char>::empty() =~= buf@);
                lemma_p_string_inner_advances(s@, i + 1 as int);
            }
            return Some((buf, k + 1));
        } else if c == '\\' {
            if k + 1 >= n {
                return None;
            }
            let e = s[k + 1];
            let u: char = if e == '"' {
                '"'
            } else if e == '\\' {
                '\\'
            } else if e == '/' {
                '/'
            } else if e == 'n' {
                '\n'
            } else if e == 'r' {
                '\r'
            } else if e == 't' {
                '\t'
            } else {
                // an escape the emitter never writes
                return None;
            };
            buf.push(u);
            proof {
                assert(unesc_char(s@[k + 1 as int]) == Some(u));
                match p_string_inner(s@, k + 2 as int) {
                    Some((t, j)) => {
                        assert((buf@.drop_last() + (seq![u] + t)) =~= (buf@ + t));
                    },
                    None => {},
                }
            }
            k += 2;
        } else {
            buf.push(c);
            proof {
                match p_string_inner(s@, k + 1 as int) {
                    Some((t, j)) => {
                        assert((buf@.drop_last() + (seq![c] + t)) =~= (buf@ + t));
                    },
                    None => {},
                }
            }
            k += 1;
        }
    }
    None
}

/// Executable unsigned decimal parse, mirroring [`p_number`].
fn parse_number_at(s: &Vec<char>, i: usize) -> (r: Option<(u64, usize)>)
    requires
        i <= s@.len(),
    ensures
        r matches Some((v, j)) ==> p_number(s@, i as int) == Some((v as nat, j as int)) && i < j
            <= s@.len(),
        r is None ==> p_number(s@, i as int) is None,
{
    let n = s.len();
    if !(i < n && '0' <= s[i] && s[i] <= '9') {
        return None;
    }
    let mut acc: u64 = 0;
    let mut k = i;
    while k < n && '0' <= s[k] && s[k] <= '9'
        invariant
            i <= k <= n,
            n == s@.len(),
            p_digits(s@, i as int, 0) == p_digits(s@, k as int, acc as nat),
            k > i || acc == 0,
            i < s@.len() && is_digit(s@[i as int]),
        decreases n - k,
    {
        let d: u64 = (s[k] as u32 - '0' as u32) as u64;
        let acc10 = match acc.checked_mul(10) {
            Some(v) => v,
            None => {
                return None;
            },
        };
        acc = match acc10.checked_add(d) {
            Some(v) => v,
            None => {
                return None;
            },
        };
        k += 1;
    }
    if k == i {
        proof {
            assert(false);
        }
        return None;
    }
    Some((acc, k))
}

/// Executable flat-value skip, mirroring [`p_skip_value`].
fn skip_value_at(s: &Vec<char>, i: usize) -> (r: Option<usize>)
    requires
        i <= s@.len(),
    ensures
        r matches Some(j) ==> p_skip_value(s@, i as int) == Some(j as int) && i < j <= s@.len(),
        r is None ==> p_skip_value(s@, i as int) is None,
{
    let n = s.len();
    if i < n && s[i] == '"' {
        match parse_string_at(s, i) {
            Some((_t, j)) => Some(j),
            None => None,
        }
    } else if i < n && (('0' <= s[i] && s[i] <= '9') || ('a' <= s[i] && s[i] <= 'z') || s[i] == '-'
        || s[i] == '+' || s[i] == '.' || s[i] == 'E') {
        let mut k = i + 1;
        proof {
            assert(p_value_run(s@, i as int) == p_value_run(s@, i + 1 as int));
        }
        while k < n && (('0' <= s[k] && s[k] <= '9') || ('a' <= s[k] && s[k] <= 'z') || s[k] == '-'
            || s[k] == '+' || s[k] == '.' || s[k] == 'E')
            invariant
                i < k <= n,
                n == s@.len(),
                p_value_run(s@, i as int) == p_value_run(s@, k as int),
            decreases n - k,
        {
            k += 1;
        }
        Some(k)
    } else {
        None
    }
}

/// Executable character-sequence equality.
fn chars_eq(a: &Vec<char>, b: &Vec<char>) -> (r: bool)
    ensures
        r == (a@ == b@),
{
    let n = a.len();
    if n != b.len() {
        return false;
    }
    let mut i: usize = 0;
    while i < n
        invariant
            i <= n,
            n == a@.len() == b@.len(),
            forall|j: int| 0 <= j < i ==> a@[j] == b@[j],
        decreases n - i,
    {
        if a[i] != b[i] {
            return false;
        }
        i += 1;
    }
    proof {
        assert(a@ =~= b@);
    }
    true
}

/// Parses a batch `info.json`, mirroring [`p_info_root`]: the
/// description and the run count, where the text supplies them.
pub fn parse_info_root(text: &str) -> (r: Option<(Option<String>, Option<u64>)>)
    ensures
        r is None <==> p_info_root(text@) is None,
        r matches Some((d, c)) ==> (p_info_root(text@) matches Some((ds, cs)) && (match d {
            Some(x) => ds == Some(x@),
            None => ds is None,
        }) && (match c {
            Some(v) => cs == Some(v as nat),
            None => cs is None,
        })),
{
    let s = chars_of(text);
    let n = s.len();
    let i0 = skip_ws(&s, 0);
    if !(i0 < n && s[i0] == '{') {
        return None;
    }
    let key_desc = chars_of("description");
    let key_count = chars_of("runs_count");
    let mut dopt: Option<Vec<char>> = None;
    let mut copt: Option<u64> = None;
    let mut k = i0 + 1;
    let ghost target = p_members_root(s@, i0 + 1 as int, None, None);
    loop
        invariant
            k <= n,
            n == s@.len(),
            s@ == text@,
            key_desc@ == "description"@,
            key_count@ == "runs_count"@,
            p_info_root(text@) == target,
            target == p_members_root(
                s@,
                k as int,
                match dopt {
                    Some(v) => Some(v@),
                    None => None,
                },
                match copt {
                    Some(v) => Some(v as nat),
                    None => None,
                },
            ),
        decreases n - k,
    {
        let k0 = skip_ws(&s, k);
        let (key, j) = match parse_string_at(&s, k0) {
            Some(p) => p,
            None => {
                return None;
            },
        };
        let j2 = skip_ws(&s, j);
        if !(j2 < n && s[j2] == ':') {
            return None;
        }
        let j3 = skip_ws(&s, j2 + 1);
        let k4: usize;
        if chars_eq(&key, &key_desc) {
            match parse_string_at(&s, j3) {
                Some((v, j4)) => {
                    dopt = Some(v);
                    k4 = j4;
                },
                None => {
                    return None;
                },
            }
        } else if chars_eq(&key, &key_count) {
            match parse_number_at(&s, j3) {
                Some((v, j4)) => {
                    copt = Some(v);
                    k4 = j4;
                },
                None => {
                    return None;
                },
            }
        } else {
            match skip_value_at(&s, j3) {
                Some(j4) => {
                    k4 = j4;
                },
                None => {
                    return None;
                },
            }
        }
        let j5 = skip_ws(&s, k4);
        if j5 < n && s[j5] == ',' {
            k = j5 + 1;
        } else if j5 < n && s[j5] == '}' {
            let d_out: Option<String> = match dopt {
                Some(v) => Some(chars_to_string(v)),
                None => None,
            };
            return Some((d_out, copt));
        } else {
            return None;
        }
    }
}

/// Parses one run's `info.json`, mirroring [`p_info_run`]: the
/// description and the scenario name, where the text supplies them.
pub fn parse_info_run(text: &str) -> (r: Option<(Option<String>, Option<String>)>)
    ensures
        r is None <==> p_info_run(text@) is None,
        r matches Some((d, a)) ==> (p_info_run(text@) matches Some((ds, as_)) && (match d {
            Some(x) => ds == Some(x@),
            None => ds is None,
        }) && (match a {
            Some(x) => as_ == Some(x@),
            None => as_ is None,
        })),
{
    let s = chars_of(text);
    let n = s.len();
    let i0 = skip_ws(&s, 0);
    if !(i0 < n && s[i0] == '{') {
        return None;
    }
    let key_desc = chars_of("description");
    let key_assum = chars_of("assumptions");
    let mut dopt: Option<Vec<char>> = None;
    let mut aopt: Option<Vec<char>> = None;
    let mut k = i0 + 1;
    let ghost target = p_members_run(s@, i0 + 1 as int, None, None);
    loop
        invariant
            k <= n,
            n == s@.len(),
            s@ == text@,
            key_desc@ == "description"@,
            key_assum@ == "assumptions"@,
            p_info_run(text@) == target,
            target == p_members_run(
                s@,
                k as int,
                match dopt {
                    Some(v) => Some(v@),
                    None => None,
                },
                match aopt {
                    Some(v) => Some(v@),
                    None => None,
                },
            ),
        decreases n - k,
    {
        let k0 = skip_ws(&s, k);
        let (key, j) = match parse_string_at(&s, k0) {
            Some(p) => p,
            None => {
                return None;
            },
        };
        let j2 = skip_ws(&s, j);
        if !(j2 < n && s[j2] == ':') {
            return None;
        }
        let j3 = skip_ws(&s, j2 + 1);
        let k4: usize;
        if chars_eq(&key, &key_desc) {
            match parse_string_at(&s, j3) {
                Some((v, j4)) => {
                    dopt = Some(v);
                    k4 = j4;
                },
                None => {
                    return None;
                },
            }
        } else if chars_eq(&key, &key_assum) {
            match parse_string_at(&s, j3) {
                Some((v, j4)) => {
                    aopt = Some(v);
                    k4 = j4;
                },
                None => {
                    return None;
                },
            }
        } else {
            match skip_value_at(&s, j3) {
                Some(j4) => {
                    k4 = j4;
                },
                None => {
                    return None;
                },
            }
        }
        let j5 = skip_ws(&s, k4);
        if j5 < n && s[j5] == ',' {
            k = j5 + 1;
        } else if j5 < n && s[j5] == '}' {
            let d_out: Option<String> = match dopt {
                Some(v) => Some(chars_to_string(v)),
                None => None,
            };
            let a_out: Option<String> = match aopt {
                Some(v) => Some(chars_to_string(v)),
                None => None,
            };
            return Some((d_out, a_out));
        } else {
            return None;
        }
    }
}

/// Parsing inverts escaping: a string body consisting of an escaped
/// text followed by a closing quote parses back to that text.
pub proof fn lemma_p_string_inner_rt(s: Seq<char>, i: int, d: Seq<char>)
    requires
        0 <= i,
        i + esc(d).len() + 1 <= s.len(),
        s.subrange(i, i + esc(d).len()) == esc(d),
        s[i + esc(d).len()] == '"',
    ensures
        p_string_inner(s, i) == Some((d, i + esc(d).len() + 1)),
    decreases d.len(),
{
    if d.len() == 0 {
        assert(esc(d).len() == 0);
        assert(s[i] == '"');
    } else {
        let c = d[0];
        let d2 = d.drop_first();
        let e = esc_char(c);
        assert(esc(d) == e + esc(d2));
        let l2 = esc(d2).len() as int;
        assert forall|t: int| 0 <= t < esc(d).len() implies s[i + t] == esc(d)[t] by {
            assert(s.subrange(i, i + esc(d).len())[t] == s[i + t]);
        }
        if is_special(c) {
            assert(e.len() == 2);
            assert(esc(d)[0] == e[0]);
            assert(esc(d)[1] == e[1]);
            assert(s[i] == esc(d)[0]) by {
                assert(s.subrange(i, i + esc(d).len())[0] == s[i]);
            }
            assert(s[i + 1] == esc(d)[1]) by {
                assert(s.subrange(i, i + esc(d).len())[1] == s[i + 1]);
            }
            assert(s[i] == '\\');
            assert(unesc_char(s[i + 1]) == Some(c));
            assert(s.subrange(i + 2, i + 2 + l2) =~= esc(d2)) by {
                assert forall|t: int| 0 <= t < l2 implies s.subrange(i + 2, i + 2 + l2)[t] == esc(
                    d2,
                )[t] by {
                    assert(s.subrange(i + 2, i + 2 + l2)[t] == s[i + 2 + t]);
                    assert(esc(d)[2 + t] == esc(d2)[t]);
                }
            }
            lemma_p_string_inner_rt(s, i + 2, d2);
            assert(seq![c] + d2 =~= d);
        } else {
            assert(e.len() == 1);
            assert(esc(d)[0] == e[0]);
            assert(s[i] == esc(d)[0]) by {
                assert(s.subrange(i, i + esc(d).len())[0] == s[i]);
            }
            assert(s[i] == c);
            assert(c != '"' && c != '\\');
            assert(s.subrange(i + 1, i + 1 + l2) =~= esc(d2)) by {
                assert forall|t: int| 0 <= t < l2 implies s.subrange(i + 1, i + 1 + l2)[t] == esc(
                    d2,
                )[t] by {
                    assert(s.subrange(i + 1, i + 1 + l2)[t] == s[i + 1 + t]);
                    assert(esc(d)[1 + t] == esc(d2)[t]);
                }
            }
            lemma_p_string_inner_rt(s, i + 1, d2);
            assert(seq![c] + d2 =~= d);
        }
    }
}

/// The left fold a digit parse computes over a digit sequence.
pub open spec fn fold_val(ds: Seq<char>, acc: nat) -> nat
    decreases ds.len(),
{
    if ds.len() == 0 {
        acc
    } else {
        fold_val(ds.drop_first(), (acc * 10 + digit_val(ds[0])) as nat)
    }
}

/// Whether a digit parse stays within the `u64` range along the fold.
pub open spec fn fold_fits(ds: Seq<char>, acc: nat) -> bool
    decreases ds.len(),
{
    if ds.len() == 0 {
        true
    } else {
        acc * 10 + digit_val(ds[0]) <= u64::MAX && fold_fits(
            ds.drop_first(),
            (acc * 10 + digit_val(ds[0])) as nat,
        )
    }
}

/// A digit parse over a digit region followed by a non-digit boundary
/// computes the fold of that region.
pub proof fn lemma_p_digits_seq(s: Seq<char>, i: int, ds: Seq<char>, acc: nat)
    requires
        0 <= i,
        i + ds.len() <= s.len(),
        s.subrange(i, i + ds.len()) == ds,
        forall|t: int| 0 <= t < ds.len() ==> is_digit(#[trigger] ds[t]),
        i + ds.len() == s.len() || !is_digit(s[i + ds.len()]),
        fold_fits(ds, acc),
    ensures
        p_digits(s, i, acc) == Some((fold_val(ds, acc), i + ds.len())),
    decreases ds.len(),
{
    if ds.len() == 0 {
    } else {
        assert forall|t: int| 0 <= t < ds.len() implies s[i + t] == ds[t] by {
            assert(s.subrange(i, i + ds.len())[t] == s[i + t]);
        }
        assert(s[i] == ds[0]);
        let ds2 = ds.drop_first();
        let acc2 = (acc * 10 + digit_val(ds[0])) as nat;
        assert(s.subrange(i + 1, i + 1 + ds2.len()) =~= ds2) by {
            assert forall|t: int| 0 <= t < ds2.len() implies s.subrange(
                i + 1,
                i + 1 + ds2.len(),
            )[t] == ds2[t] by {
                assert(s.subrange(i + 1, i + 1 + ds2.len())[t] == s[i + 1 + t]);
                assert(ds[1 + t] == ds2[t]);
            }
        }
        lemma_p_digits_seq(s, i + 1, ds2, acc2);
    }
}

/// A digit character's value lies between 0 and 9.
pub proof fn lemma_digit_val_bounds(c: char)
    requires
        is_digit(c),
    ensures
        0 <= digit_val(c) <= 9,
{
    assert('0' as int == 48);
    assert('9' as int == 57);
}

/// The fold of a digit sequence extended by one digit.
pub proof fn lemma_fold_snoc(ds: Seq<char>, c: char, acc: nat)
    requires
        forall|t: int| 0 <= t < ds.len() ==> is_digit(#[trigger] ds[t]),
        is_digit(c),
    ensures
        fold_val(ds.push(c), acc) == fold_val(ds, acc) * 10 + digit_val(c),
        fold_fits(ds.push(c), acc) == (fold_fits(ds, acc) && fold_val(ds, acc) * 10 + digit_val(c)
            <= u64::MAX),
    decreases ds.len(),
{
    lemma_digit_val_bounds(c);
    reveal_with_fuel(fold_val, 3);
    reveal_with_fuel(fold_fits, 3);
    if ds.len() == 0 {
        assert(ds.push(c)[0] == c);
        assert(ds.push(c).drop_first() =~= Seq::<char>::empty());
        assert(fold_val(ds.push(c), acc) == (acc * 10 + digit_val(c)) as nat);
    } else {
        lemma_digit_val_bounds(ds[0]);
        assert(ds.push(c)[0] == ds[0]);
        assert(ds.push(c).drop_first() =~= ds.drop_first().push(c));
        lemma_fold_snoc(ds.drop_first(), c, (acc * 10 + digit_val(ds[0])) as nat);
    }
}

/// Every decimal rendering consists of digits.
pub proof fn lemma_dec_digits_are_digits(n: nat)
    ensures
        dec_digits(n).len() >= 1,
        forall|t: int| 0 <= t < dec_digits(n).len() ==> is_digit(#[trigger] dec_digits(n)[t]),
    decreases n,
{
    if n < 10 {
    } else {
        lemma_dec_digits_are_digits(n / 10);
        let ds = dec_digits(n / 10);
        let c = digit_char((n % 10) as int);
        assert(is_digit(c));
        assert forall|t: int| 0 <= t < ds.push(c).len() implies is_digit(
            #[trigger] ds.push(c)[t],
        ) by {
            if t < ds.len() {
                assert(ds.push(c)[t] == ds[t]);
            } else {
                assert(ds.push(c)[t] == c);
            }
        }
    }
}

/// A decimal digit is not whitespace, a quote, a brace or a backslash.
pub proof fn lemma_digit_not_delim(c: char)
    requires
        is_digit(c),
    ensures
        !is_ws(c),
        c != '"' && c != '}' && c != ',' && c != '\\' && c != '/',
{
    assert('0' as int == 48 && '9' as int == 57);
    assert(' ' as int == 32 && '\t' as int == 9 && '\n' as int == 10 && '\r' as int == 13);
    assert('"' as int == 34 && '}' as int == 125 && ',' as int == 44 && '\\' as int == 92);
    assert('/' as int == 47);
}

/// Folding the decimal rendering of `n` from accumulator 0 recovers `n`,
/// and the fold stays within range whenever `n` does.
pub proof fn lemma_fold_dec(n: nat)
    requires
        n <= u64::MAX,
    ensures
        fold_val(dec_digits(n), 0) == n,
        fold_fits(dec_digits(n), 0),
    decreases n,
{
    lemma_dec_digits_are_digits(n);
    reveal_with_fuel(fold_val, 3);
    reveal_with_fuel(fold_fits, 3);
    reveal_with_fuel(dec_digits, 2);
    if n < 10 {
        assert(digit_val(digit_char(n as int)) == n);
        assert(dec_digits(n)[0] == digit_char(n as int));
        assert(dec_digits(n).drop_first() =~= Seq::<char>::empty());
    } else {
        lemma_fold_dec(n / 10);
        lemma_dec_digits_are_digits(n / 10);
        lemma_fold_snoc(dec_digits(n / 10), digit_char((n % 10) as int), 0);
        assert(digit_val(digit_char((n % 10) as int)) == n % 10);
        assert((n / 10) * 10 + n % 10 == n) by {
            vstd::arithmetic::div_mod::lemma_fundamental_div_mod(n as int, 10);
        }
    }
}

/// Law: parsing inverts emission for the batch `info.json`.  For every
/// description and run count, the emitted object parses back to exactly
/// that description and count.
pub proof fn lemma_info_root_round_trip(d: Seq<char>, n: nat)
    requires
        n <= u64::MAX,
    ensures
        p_info_root(info_json_root(d, n)) == Some((Some(d), Some(n))),
{
    reveal_strlit("{\"description\":\"");
    reveal_strlit("\",\"runs_count\":");
    reveal_strlit("}");
    reveal_strlit("description");
    reveal_strlit("runs_count");
    let lit1 = "{\"description\":\""@;
    let lit2 = "\",\"runs_count\":"@;
    let lit3 = "}"@;
    let e = esc(d);
    let l = e.len() as int;
    let ds = dec_digits(n);
    let k = ds.len() as int;
    let s = info_json_root(d, n);
    assert(lit1.len() == 16);
    assert(lit2.len() == 15);
    assert(lit3.len() == 1);
    assert(s == lit1 + e + lit2 + ds + lit3);
    assert(s.len() == 32 + l + k);
    lemma_dec_digits_are_digits(n);
    // where each region of the emitted text lies
    assert forall|t: int| 0 <= t < 16 implies s[t] == lit1[t] by {}
    assert forall|t: int| 0 <= t < l implies s[16 + t] == e[t] by {}
    assert forall|t: int| 0 <= t < 15 implies s[16 + l + t] == lit2[t] by {}
    assert forall|t: int| 0 <= t < k implies s[31 + l + t] == ds[t] by {}
    assert(s[31 + l + k] == lit3[0]);
    assert(s[0] == '{');
    assert(p_ws(s, 0) == 0);
    // first member: the "description" key
    assert forall|t: int| 0 <= t < 11 implies !is_special("description"@[t]) by {}
    lemma_esc_id("description"@);
    assert(s.subrange(2, 13) =~= "description"@) by {
        assert forall|t: int| 0 <= t < 11 implies s.subrange(2, 13)[t] == "description"@[t] by {
            assert(s.subrange(2, 13)[t] == s[2 + t]);
            assert(s[2 + t] == lit1[2 + t]);
        }
    }
    lemma_p_string_inner_rt(s, 2, "description"@);
    assert(s[1] == '"');
    assert(p_ws(s, 1) == 1);
    assert(p_string(s, 1) == Some(("description"@, 14int)));
    assert(s[14] == ':');
    assert(p_ws(s, 14) == 14);
    assert(s[15] == '"');
    assert(p_ws(s, 15) == 15);
    // its value: the escaped description
    assert(s.subrange(16, 16 + l) =~= e) by {
        assert forall|t: int| 0 <= t < l implies s.subrange(16, 16 + l)[t] == e[t] by {
            assert(s.subrange(16, 16 + l)[t] == s[16 + t]);
        }
    }
    assert(s[16 + l] == lit2[0]);
    assert(s[16 + l] == '"');
    lemma_p_string_inner_rt(s, 16, d);
    assert(p_string(s, 15) == Some((d, 17 + l)));
    assert(s[17 + l] == lit2[1]);
    assert(s[17 + l] == ',');
    assert(p_ws(s, 17 + l) == 17 + l);
    assert(p_members_root(s, 1, None, None) == p_members_root(s, 18 + l, Some(d), None));
    // second member: the "runs_count" key
    assert(s[18 + l] == lit2[2]);
    assert(s[18 + l] == '"');
    assert(p_ws(s, 18 + l) == 18 + l);
    assert forall|t: int| 0 <= t < 10 implies !is_special("runs_count"@[t]) by {}
    lemma_esc_id("runs_count"@);
    assert(s.subrange(19 + l, 29 + l) =~= "runs_count"@) by {
        assert forall|t: int| 0 <= t < 10 implies s.subrange(19 + l, 29 + l)[t]
            == "runs_count"@[t] by {
            assert(s.subrange(19 + l, 29 + l)[t] == s[19 + l + t]);
            assert(s[19 + l + t] == lit2[3 + t]);
        }
    }
    assert(s[29 + l] == lit2[13]);
    assert(s[29 + l] == '"');
    lemma_p_string_inner_rt(s, 19 + l, "runs_count"@);
    assert(p_string(s, 18 + l) == Some(("runs_count"@, 30 + l)));
    assert(s[30 + l] == lit2[14]);
    assert(s[30 + l] == ':');
    assert(p_ws(s, 30 + l) == 30 + l);
    assert("runs_count"@ != "description"@);
    // its value: the decimal run count
    assert(s[31 + l] == ds[0]);
    assert(is_digit(s[31 + l]));
    lemma_digit_not_delim(ds[0]);
    assert(p_ws(s, 31 + l) == 31 + l);
    assert(s.subrange(31 + l, 31 + l + k) =~= ds) by {
        assert forall|t: int| 0 <= t < k implies s.subrange(31 + l, 31 + l + k)[t] == ds[t] by {
            assert(s.subrange(31 + l, 31 + l + k)[t] == s[31 + l + t]);
        }
    }
    assert(s[31 + l + k] == '}');
    assert(!is_digit(s[31 + l + k])) by {
        assert('0' as int == 48 && '9' as int == 57 && '}' as int == 125);
    }
    lemma_fold_dec(n);
    lemma_p_digits_seq(s, 31 + l, ds, 0);
    assert(p_number(s, 31 + l) == Some((n, 31 + l + k)));
    assert(p_ws(s, 31 + l + k) == 31 + l + k);
    assert(p_members_root(s, 18 + l, Some(d), None) == Some((Some(d), Some(n))));
    assert(p_info_root(s) == Some((Some(d), Some(n))));
}

/// Law: parsing inverts emission for one run's `info.json`.  For every
/// description and scenario name, the emitted object parses back to
/// exactly that description and name.
pub proof fn lemma_info_run_round_trip(d: Seq<char>, a: Seq<char>)
    ensures
        p_info_run(info_json_run(d, a)) == Some((Some(d), Some(a))),
{
    reveal_strlit("{\"description\":\"");
    reveal_strlit("\",\"assumptions\":\"");
    reveal_strlit("\"}");
    reveal_strlit("description");
    reveal_strlit("assumptions");
    let lit1 = "{\"description\":\""@;
    let lit2 = "\",\"assumptions\":\""@;
    let lit3 = "\"}"@;
    let e = esc(d);
    let l = e.len() as int;
    let ea = esc(a);
    let m = ea.len() as int;
    let s = info_json_run(d, a);
    assert(lit1.len() == 16);
    assert(lit2.len() == 17);
    assert(lit3.len() == 2);
    assert(s == lit1 + e + lit2 + ea + lit3);
    assert(s.len() == 35 + l + m);
    // where each region of the emitted text lies
    assert forall|t: int| 0 <= t < 16 implies s[t] == lit1[t] by {}
    assert forall|t: int| 0 <= t < l implies s[16 + t] == e[t] by {}
    assert forall|t: int| 0 <= t < 17 implies s[16 + l + t] == lit2[t] by {}
    assert forall|t: int| 0 <= t < m implies s[33 + l + t] == ea[t] by {}
    assert(s[33 + l + m] == lit3[0]);
    assert(s[34 + l + m] == lit3[1]);
    assert(s[0] == '{');
    assert(p_ws(s, 0) == 0);
    // first member: the "description" key
    assert forall|t: int| 0 <= t < 11 implies !is_special("description"@[t]) by {}
    lemma_esc_id("description"@);
    assert(s.subrange(2, 13) =~= "description"@) by {
        assert forall|t: int| 0 <= t < 11 implies s.subrange(2, 13)[t] == "description"@[t] by {
            assert(s.subrange(2, 13)[t] == s[2 + t]);
            assert(s[2 + t] == lit1[2 + t]);
        }
    }
    lemma_p_string_inner_rt(s, 2, "description"@);
    assert(s[1] == '"');
    assert(p_ws(s, 1) == 1);
    assert(p_string(s, 1) == Some(("description"@, 14int)));
    assert(s[14] == ':');
    assert(p_ws(s, 14) == 14);
    assert(s[15] == '"');
    assert(p_ws(s, 15) == 15);
    // its value: the escaped description
    assert(s.subrange(16, 16 + l) =~= e) by {
        assert forall|t: int| 0 <= t < l implies s.subrange(16, 16 + l)[t] == e[t] by {
            assert(s.subrange(16, 16 + l)[t] == s[16 + t]);
        }
    }
    assert(s[16 + l] == lit2[0]);
    assert(s[16 + l] == '"');
    lemma_p_string_inner_rt(s, 16, d);
    assert(p_string(s, 15) == Some((d, 17 + l)));
    assert(s[17 + l] == lit2[1]);
    assert(s[17 + l] == ',');
    assert(p_ws(s, 17 + l) == 17 + l);
    assert(p_members_run(s, 1, None, None) == p_members_run(s, 18 + l, Some(d), None));
    // second member: the "assumptions" key
    assert(s[18 + l] == lit2[2]);
    assert(s[18 + l] == '"');
    assert(p_ws(s, 18 + l) == 18 + l);
    assert forall|t: int| 0 <= t < 11 implies !is_special("assumptions"@[t]) by {}
    lemma_esc_id("assumptions"@);
    assert(s.subrange(19 + l, 30 + l) =~= "assumptions"@) by {
        assert forall|t: int| 0 <= t < 11 implies s.subrange(19 + l, 30 + l)[t]
            == "assumptions"@[t] by {
            assert(s.subrange(19 + l, 30 + l)[t] == s[19 + l + t]);
            assert(s[19 + l + t] == lit2[3 + t]);
        }
    }
    assert(s[30 + l] == lit2[14]);
    assert(s[30 + l] == '"');
    lemma_p_string_inner_rt(s, 19 + l, "assumptions"@);
    assert(p_string(s, 18 + l) == Some(("assumptions"@, 31 + l)));
    assert(s[31 + l] == lit2[15]);
    assert(s[31 + l] == ':');
    assert(p_ws(s, 31 + l) == 31 + l);
    assert("assumptions"@[0] == 'a');
    assert("description"@[0] == 'd');
    assert("assumptions"@ != "description"@);
    // its value: the escaped scenario name
    assert(s[32 + l] == lit2[16]);
    assert(s[32 + l] == '"');
    assert(p_ws(s, 32 + l) == 32 + l);
    assert(s.subrange(33 + l, 33 + l + m) =~= ea) by {
        assert forall|t: int| 0 <= t < m implies s.subrange(33 + l, 33 + l + m)[t] == ea[t] by {
            assert(s.subrange(33 + l, 33 + l + m)[t] == s[33 + l + t]);
        }
    }
    assert(s[33 + l + m] == '"');
    lemma_p_string_inner_rt(s, 33 + l, a);
    assert(p_string(s, 32 + l) == Some((a, 34 + l + m)));
    assert(s[34 + l + m] == '}');
    assert(p_ws(s, 34 + l + m) == 34 + l + m);
    assert(p_members_run(s, 18 + l, Some(d), None) == Some((Some(d), Some(a))));
    assert(p_info_run(s) == Some((Some(d), Some(a))));
}

} // verus!
