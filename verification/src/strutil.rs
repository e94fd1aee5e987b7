//! Character-sequence utilities shared by the parsers and renderers.
//!
//! Strings are modelled as `Seq<char>`; the executable code works on
//! `Vec<char>` so that indexing and slicing stay simple, and converts back to
//! `String` at the edges.

use vstd::prelude::*;

verus! {

/// Relies on `String::push`: appends the given character to the end of the
/// string.
#[verifier::external_body]
pub fn push_char(s: &mut String, c: char)
    ensures
        final(s)@ == old(s)@.push(c),
{
    s.push(c);
}

/// The characters of `s`, in order.
pub fn chars_of(s: &str) -> (r: Vec<char>)
    ensures
        r@ == s@,
{
    let n = s.unicode_len();
    let mut r: Vec<char> = Vec::new();
    let mut i: usize = 0;
    while i < n
        invariant
            n == s@.len(),
            i <= n,
            r@ == s@.take(i as int),
        decreases n - i,
    {
        r.push(s.get_char(i));
        proof {
            assert(s@.take(i + 1) =~= s@.take(i as int).push(s@[i as int]));
        }
        i = i + 1;
    }
    proof {
        assert(s@.take(n as int) =~= s@);
    }
    r
}

/// A `String` holding exactly the characters of `cs`.
pub fn string_of_chars(cs: &Vec<char>) -> (r: String)
    ensures
        r@ == cs@,
{
    let mut r = String::new();
    let mut i: usize = 0;
    while i < cs.len()
        invariant
            i <= cs@.len(),
            r@ == cs@.take(i as int),
        decreases cs@.len() - i,
    {
        push_char(&mut r, cs[i]);
        proof {
            assert(cs@.take(i + 1) =~= cs@.take(i as int).push(cs@[i as int]));
        }
        i = i + 1;
    }
    proof {
        assert(cs@.take(cs@.len() as int) =~= cs@);
    }
    r
}

/// Whether `p` is a prefix of `s`.
pub open spec fn spec_starts_with(s: Seq<char>, p: Seq<char>) -> bool {
    s.len() >= p.len() && s.take(p.len() as int) == p
}

/// Whether the characters of `s` starting at `at` begin with `p`.
pub fn starts_with_at(s: &Vec<char>, p: &Vec<char>, at: usize) -> (r: bool)
    requires
        at <= s@.len(),
    ensures
        r == spec_starts_with(s@.skip(at as int), p@),
{
    if s.len() - at < p.len() {
        proof {
            assert(s@.skip(at as int).len() < p@.len());
        }
        return false;
    }
    let mut i: usize = 0;
    while i < p.len()
        invariant
            at + p@.len() <= s@.len(),
            s@.len() <= usize::MAX,
            i <= p@.len(),
            forall|j: int| 0 <= j < i ==> s@[at + j] == p@[j],
        decreases p@.len() - i,
    {
        if s[at + i] != p[i] {
            proof {
                assert(s@.skip(at as int)[i as int] == s@[at + i]);
                assert(s@.skip(at as int).take(p@.len() as int)[i as int] != p@[i as int]);
            }
            return false;
        }
        i = i + 1;
    }
    proof {
        assert(s@.skip(at as int).take(p@.len() as int) =~= p@);
    }
    true
}

/// `ps` with its first piece replaced by `c` followed by that piece.
pub open spec fn prepend_first(c: Seq<char>, ps: Seq<Seq<char>>) -> Seq<Seq<char>>
    recommends
        ps.len() >= 1,
{
    seq![c + ps[0]] + ps.drop_first()
}

/// The pieces of `s` between occurrences of the separator character, in
/// order; always at least one piece, and empty pieces are kept.
pub open spec fn spec_split(s: Seq<char>, sep: char) -> Seq<Seq<char>>
    decreases s.len(),
{
    if s.len() == 0 {
        seq![Seq::<char>::empty()]
    } else if s[0] == sep {
        seq![Seq::<char>::empty()] + spec_split(s.drop_first(), sep)
    } else {
        prepend_first(seq![s[0]], spec_split(s.drop_first(), sep))
    }
}

pub proof fn lemma_split_len(s: Seq<char>, sep: char)
    ensures
        spec_split(s, sep).len() >= 1,
    decreases s.len(),
{
    if s.len() > 0 {
        lemma_split_len(s.drop_first(), sep);
    }
}

/// The pieces of `s` between non-overlapping occurrences of the separator
/// sequence, scanning left to right.
pub open spec fn spec_split_seq(s: Seq<char>, sep: Seq<char>) -> Seq<Seq<char>>
    recommends
        sep.len() >= 1,
    decreases s.len(),
{
    if s.len() == 0 {
        seq![Seq::<char>::empty()]
    } else if sep.len() >= 1 && spec_starts_with(s, sep) {
        seq![Seq::<char>::empty()] + spec_split_seq(s.skip(sep.len() as int), sep)
    } else {
        prepend_first(seq![s[0]], spec_split_seq(s.drop_first(), sep))
    }
}

pub proof fn lemma_split_seq_len(s: Seq<char>, sep: Seq<char>)
    ensures
        spec_split_seq(s, sep).len() >= 1,
    decreases s.len(),
{
    if s.len() == 0 {
    } else if sep.len() >= 1 && spec_starts_with(s, sep) {
        lemma_split_seq_len(s.skip(sep.len() as int), sep);
    } else {
        lemma_split_seq_len(s.drop_first(), sep);
    }
}

/// Splits `cs` on a single separator character.
pub fn split_chars(cs: &Vec<char>, sep: char) -> (r: Vec<Vec<char>>)
    ensures
        r.deep_view() == spec_split(cs@, sep),
        r@.len() >= 1,
{
    let mut done: Vec<Vec<char>> = Vec::new();
    let mut cur: Vec<char> = Vec::new();
    let mut i: usize = 0;
    proof {
        lemma_split_len(cs@, sep);
        assert(cs@.skip(0) =~= cs@);
        assert(prepend_first(Seq::<char>::empty(), spec_split(cs@, sep)) =~~= spec_split(
            cs@,
            sep,
        ));
        assert(done.deep_view() + spec_split(cs@, sep) =~~= spec_split(cs@, sep));
    }
    while i < cs.len()
        invariant
            i <= cs@.len(),
            spec_split(cs@, sep) == done.deep_view() + prepend_first(
                cur@,
                spec_split(cs@.skip(i as int), sep),
            ),
        decreases cs@.len() - i,
    {
        proof {
            let tail = cs@.skip(i as int);
            assert(tail[0] == cs@[i as int]);
            assert(tail.drop_first() =~= cs@.skip(i + 1));
            lemma_split_len(cs@.skip(i + 1), sep);
        }
        let c = cs[i];
        if c == sep {
            proof {
                let ps = spec_split(cs@.skip(i + 1), sep);
                assert(prepend_first(cur@, seq![Seq::<char>::empty()] + ps) =~~= seq![cur@] + ps);
                assert(prepend_first(Seq::<char>::empty(), ps) =~~= ps);
                assert((done.deep_view() + (seq![cur@] + ps)) =~~= ((done.deep_view().push(cur@))
                    + ps));
                assert(done.deep_view().push(cur@) =~~= done@.push(cur).map_values(
                    |v: Vec<char>| v.deep_view(),
                ));
            }
            done.push(cur);
            cur = Vec::new();
            proof {
                assert(done.deep_view() + prepend_first(
                    cur@,
                    spec_split(cs@.skip(i + 1), sep),
                ) =~~= spec_split(cs@, sep));
            }
        } else {
            proof {
                let ps = spec_split(cs@.skip(i + 1), sep);
                assert(prepend_first(cur@, prepend_first(seq![cs@[i as int]], ps)) =~~=
                    prepend_first(cur@.push(cs@[i as int]), ps));
            }
            cur.push(c);
        }
        i = i + 1;
    }
    proof {
        assert(cs@.skip(i as int) =~= Seq::<char>::empty());
        assert(prepend_first(cur@, spec_split(Seq::<char>::empty(), sep)) =~~= seq![cur@]);
        assert(done.deep_view().push(cur@) =~~= done@.push(cur).map_values(
            |v: Vec<char>| v.deep_view(),
        ));
        assert(done.deep_view() + seq![cur@] =~~= done.deep_view().push(cur@));
    }
    done.push(cur);
    let r = done;
    proof {
        lemma_split_len(cs@, sep);
        assert(r@.len() == r.deep_view().len());
    }
    r
}

/// Splits `cs` on a separator sequence.
pub fn split_chars_seq(cs: &Vec<char>, sep: &Vec<char>) -> (r: Vec<Vec<char>>)
    requires
        sep@.len() >= 1,
    ensures
        r.deep_view() == spec_split_seq(cs@, sep@),
        r@.len() >= 1,
{
    let mut done: Vec<Vec<char>> = Vec::new();
    let mut cur: Vec<char> = Vec::new();
    let mut i: usize = 0;
    proof {
        lemma_split_seq_len(cs@, sep@);
        assert(cs@.skip(0) =~= cs@);
        assert(prepend_first(Seq::<char>::empty(), spec_split_seq(cs@, sep@)) =~~= spec_split_seq(
            cs@,
            sep@,
        ));
        assert(done.deep_view() + spec_split_seq(cs@, sep@) =~~= spec_split_seq(cs@, sep@));
    }
    while i < cs.len()
        invariant
            i <= cs@.len(),
            sep@.len() >= 1,
            spec_split_seq(cs@, sep@) == done.deep_view() + prepend_first(
                cur@,
                spec_split_seq(cs@.skip(i as int), sep@),
            ),
        decreases cs@.len() - i,
    {
        proof {
            let tail = cs@.skip(i as int);
            assert(tail[0] == cs@[i as int]);
            assert(tail.drop_first() =~= cs@.skip(i + 1));
        }
        if starts_with_at(cs, sep, i) {
            let j = i + sep.len();
            proof {
                let tail = cs@.skip(i as int);
                assert(tail.skip(sep@.len() as int) =~= cs@.skip(i + sep@.len()));
                let ps = spec_split_seq(cs@.skip(j as int), sep@);
                lemma_split_seq_len(cs@.skip(j as int), sep@);
                assert(prepend_first(cur@, seq![Seq::<char>::empty()] + ps) =~~= seq![cur@] + ps);
                assert(prepend_first(Seq::<char>::empty(), ps) =~~= ps);
                assert(done.deep_view().push(cur@) =~~= done@.push(cur).map_values(
                    |v: Vec<char>| v.deep_view(),
                ));
                assert((done.deep_view() + (seq![cur@] + ps)) =~~= ((done.deep_view().push(cur@))
                    + ps));
            }
            done.push(cur);
            cur = Vec::new();
            i = j;
            proof {
                assert(done.deep_view() + prepend_first(
                    cur@,
                    spec_split_seq(cs@.skip(i as int), sep@),
                ) =~~= spec_split_seq(cs@, sep@));
            }
        } else {
            proof {
                let ps = spec_split_seq(cs@.skip(i + 1), sep@);
                lemma_split_seq_len(cs@.skip(i + 1), sep@);
                assert(prepend_first(cur@, prepend_first(seq![cs@[i as int]], ps)) =~~=
                    prepend_first(cur@.push(cs@[i as int]), ps));
            }
            let c = cs[i];
            cur.push(c);
            i = i + 1;
        }
    }
    proof {
        assert(cs@.skip(i as int) =~= Seq::<char>::empty());
        assert(prepend_first(cur@, spec_split_seq(Seq::<char>::empty(), sep@)) =~~= seq![cur@]);
        assert(done.deep_view().push(cur@) =~~= done@.push(cur).map_values(
            |v: Vec<char>| v.deep_view(),
        ));
        assert(done.deep_view() + seq![cur@] =~~= done.deep_view().push(cur@));
    }
    done.push(cur);
    let r = done;
    proof {
        lemma_split_seq_len(cs@, sep@);
        assert(r@.len() == r.deep_view().len());
    }
    r
}

/// Whether two character vectors hold the same characters.
pub fn chars_eq(a: &Vec<char>, b: &Vec<char>) -> (r: bool)
    ensures
        r == (a@ == b@),
{
    if a.len() != b.len() {
        return false;
    }
    let mut i: usize = 0;
    while i < a.len()
        invariant
            a@.len() == b@.len(),
            i <= a@.len(),
            forall|j: int| 0 <= j < i ==> a@[j] == b@[j],
        decreases a@.len() - i,
    {
        if a[i] != b[i] {
            return false;
        }
        i = i + 1;
    }
    proof {
        assert(a@ =~= b@);
    }
    true
}

/// Whether `c` is a decimal digit.
pub open spec fn is_digit_char(c: char) -> bool {
    c == '0' || c == '1' || c == '2' || c == '3' || c == '4' || c == '5' || c == '6' || c == '7'
        || c == '8' || c == '9'
}

/// Numeric value of a digit character.
pub open spec fn digit_val(c: char) -> int {
    if c == '1' {
        1
    } else if c == '2' {
        2
    } else if c == '3' {
        3
    } else if c == '4' {
        4
    } else if c == '5' {
        5
    } else if c == '6' {
        6
    } else if c == '7' {
        7
    } else if c == '8' {
        8
    } else if c == '9' {
        9
    } else {
        0
    }
}

/// The numeric value of a digit character, or nothing for any other
/// character.
pub fn digit_of(c: char) -> (r: Option<u8>)
    ensures
        r is Some <==> is_digit_char(c),
        r is Some ==> r->0 == digit_val(c),
{
    match c {
        '0' => Some(0),
        '1' => Some(1),
        '2' => Some(2),
        '3' => Some(3),
        '4' => Some(4),
        '5' => Some(5),
        '6' => Some(6),
        '7' => Some(7),
        '8' => Some(8),
        '9' => Some(9),
        _ => None,
    }
}

/// Whether every character of `s` is a decimal digit.
pub open spec fn all_digits(s: Seq<char>) -> bool {
    forall|i: int| 0 <= i < s.len() ==> is_digit_char(#[trigger] s[i])
}

/// The base-ten value of a digit sequence.
pub open spec fn digits_val(s: Seq<char>) -> int
    decreases s.len(),
{
    if s.len() == 0 {
        0
    } else {
        digits_val(s.drop_last()) * 10 + digit_val(s.last())
    }
}

pub proof fn lemma_digits_val_nonneg(s: Seq<char>)
    requires
        all_digits(s),
    ensures
        digits_val(s) >= 0,
    decreases s.len(),
{
    if s.len() > 0 {
        assert(all_digits(s.drop_last()));
        lemma_digits_val_nonneg(s.drop_last());
    }
}

pub proof fn lemma_digits_val_prefix_le(s: Seq<char>, i: int)
    requires
        all_digits(s),
        0 <= i <= s.len(),
    ensures
        digits_val(s.take(i)) <= digits_val(s),
    decreases s.len() - i,
{
    if i < s.len() {
        let t = s.take(i + 1);
        assert(t.drop_last() =~= s.take(i));
        assert(all_digits(s.take(i)));
        lemma_digits_val_nonneg(s.take(i));
        assert(digits_val(t) == digits_val(s.take(i)) * 10 + digit_val(s[i]));
        lemma_digits_val_prefix_le(s, i + 1);
    } else {
        assert(s.take(i) =~= s);
    }
}

/// What parsing a decimal unsigned token yields: the value of the digits
/// when the token is nonempty, all digits, and in range; nothing otherwise.
pub open spec fn spec_parse_u32(s: Seq<char>) -> Option<u32> {
    if s.len() >= 1 && all_digits(s) && digits_val(s) <= u32::MAX {
        Some(digits_val(s) as u32)
    } else {
        None
    }
}

/// What parsing a decimal signed 64-bit token yields: an optional leading
/// minus sign, then one or more digits, with the value in range.
pub open spec fn spec_parse_i64(s: Seq<char>) -> Option<i64> {
    if s.len() >= 2 && s[0] == '-' && all_digits(s.skip(1)) && digits_val(s.skip(1))
        <= 0x8000_0000_0000_0000 {
        Some((0 - digits_val(s.skip(1))) as i64)
    } else if s.len() >= 1 && all_digits(s) && digits_val(s) <= i64::MAX {
        Some(digits_val(s) as i64)
    } else {
        None
    }
}

/// Parses a decimal unsigned 32-bit token.
pub fn parse_u32_chars(cs: &Vec<char>) -> (r: Option<u32>)
    ensures
        r == spec_parse_u32(cs@),
{
    if cs.len() == 0 {
        return None;
    }
    let mut acc: u64 = 0;
    let mut i: usize = 0;
    proof {
        assert(cs@.take(0) =~= Seq::<char>::empty());
    }
    while i < cs.len()
        invariant
            i <= cs@.len(),
            all_digits(cs@.take(i as int)),
            acc == digits_val(cs@.take(i as int)),
            acc <= u32::MAX,
        decreases cs@.len() - i,
    {
        let c = cs[i];
        let d: u64 = match digit_of(c) {
            Some(d) => d as u64,
            None => {
                proof {
                    assert(!is_digit_char(cs@[i as int]));
                }
                return None;
            },
        };
        proof {
            assert(cs@.take(i + 1).drop_last() =~= cs@.take(i as int));
            assert(cs@.take(i + 1).last() == cs@[i as int]);
            assert(is_digit_char(cs@[i as int]));
            assert forall|j: int| 0 <= j < i + 1 implies is_digit_char(
                #[trigger] cs@.take(i + 1)[j],
            ) by {
                assert(cs@.take(i + 1)[j] == cs@[j]);
                if j < i {
                    assert(cs@.take(i as int)[j] == cs@[j]);
                }
            }
        }
        acc = acc * 10 + d;
        i = i + 1;
        if acc > u32::MAX as u64 {
            proof {
                assert(all_digits(cs@.take(i as int)));
                if all_digits(cs@) {
                    lemma_digits_val_prefix_le(cs@, i as int);
                }
            }
            return None;
        }
    }
    proof {
        assert(cs@.take(cs@.len() as int) =~= cs@);
    }
    Some(acc as u32)
}

/// Parses the digit run of a signed token into its magnitude, capped at
/// `2^63`; used by [`parse_i64_chars`].
fn parse_magnitude(cs: &Vec<char>, from: usize) -> (r: Option<u64>)
    requires
        from <= cs@.len(),
    ensures
        match r {
            Some(m) => {
                &&& cs@.len() > from
                &&& all_digits(cs@.skip(from as int))
                &&& digits_val(cs@.skip(from as int)) == m
                &&& m <= 0x8000_0000_0000_0000
            },
            None => cs@.len() == from || !all_digits(cs@.skip(from as int)) || digits_val(
                cs@.skip(from as int),
            ) > 0x8000_0000_0000_0000,
        },
{
    if cs.len() == from {
        return None;
    }
    let ghost s = cs@.skip(from as int);
    let mut acc: u128 = 0;
    let mut i: usize = from;
    proof {
        assert(s.take(0) =~= Seq::<char>::empty());
    }
    while i < cs.len()
        invariant
            from <= i <= cs@.len(),
            s == cs@.skip(from as int),
            all_digits(s.take(i - from)),
            acc == digits_val(s.take(i - from)),
            acc <= 0x8000_0000_0000_0000,
        decreases cs@.len() - i,
    {
        let c = cs[i];
        proof {
            assert(s[i - from] == cs@[i as int]);
        }
        let d: u128 = match digit_of(c) {
            Some(d) => d as u128,
            None => {
                proof {
                    assert(!is_digit_char(s[i - from]));
                }
                return None;
            },
        };
        proof {
            assert(s.take(i + 1 - from).drop_last() =~= s.take(i - from));
            assert(s.take(i + 1 - from).last() == s[i - from]);
            assert(is_digit_char(s[i - from]));
            assert forall|j: int| 0 <= j < i + 1 - from implies is_digit_char(
                #[trigger] s.take(i + 1 - from)[j],
            ) by {
                assert(s.take(i + 1 - from)[j] == s[j]);
                if j < i - from {
                    assert(s.take(i - from)[j] == s[j]);
                }
            }
        }
        acc = acc * 10 + d;
        i = i + 1;
        if acc > 0x8000_0000_0000_0000u128 {
            proof {
                assert(all_digits(s.take(i - from)));
                if all_digits(s) {
                    lemma_digits_val_prefix_le(s, i - from);
                }
            }
            return None;
        }
    }
    proof {
        assert(s.take(cs@.len() - from) =~= s);
    }
    Some(acc as u64)
}

/// Parses a decimal signed 64-bit token.
pub fn parse_i64_chars(cs: &Vec<char>) -> (r: Option<i64>)
    ensures
        r == spec_parse_i64(cs@),
{
    if cs.len() >= 1 && cs[0] == '-' {
        proof {
            assert(!is_digit_char(cs@[0]));
        }
        match parse_magnitude(cs, 1) {
            Some(m) => {
                if m <= i64::MAX as u64 {
                    Some(0i64 - (m as i64))
                } else {
                    proof {
                        assert(m == 0x8000_0000_0000_0000);
                    }
                    Some(i64::MIN)
                }
            },
            None => None,
        }
    } else {
        match parse_magnitude(cs, 0) {
            Some(m) => {
                proof {
                    assert(cs@.skip(0) =~= cs@);
                }
                if m <= i64::MAX as u64 {
                    Some(m as i64)
                } else {
                    proof {
                        lemma_digits_val_prefix_le(cs@, cs@.len() as int);
                    }
                    None
                }
            },
            None => {
                proof {
                    assert(cs@.skip(0) =~= cs@);
                }
                None
            },
        }
    }
}

/// The digit character for a value between zero and nine.
pub open spec fn digit_char(d: int) -> char
    recommends
        0 <= d <= 9,
{
    if d == 0 {
        '0'
    } else if d == 1 {
        '1'
    } else if d == 2 {
        '2'
    } else if d == 3 {
        '3'
    } else if d == 4 {
        '4'
    } else if d == 5 {
        '5'
    } else if d == 6 {
        '6'
    } else if d == 7 {
        '7'
    } else if d == 8 {
        '8'
    } else {
        '9'
    }
}

/// The canonical decimal rendering of a natural number.
pub open spec fn render_nat(n: nat) -> Seq<char>
    decreases n,
{
    if n < 10 {
        seq![digit_char(n as int)]
    } else {
        render_nat(n / 10).push(digit_char((n % 10) as int))
    }
}

/// The canonical decimal rendering of a signed 64-bit value.
pub open spec fn render_i64(t: i64) -> Seq<char> {
    if t < 0 {
        seq!['-'] + render_nat((0 - t as int) as nat)
    } else {
        render_nat(t as nat)
    }
}

/// The canonical decimal rendering of an unsigned 32-bit value.
pub open spec fn render_u32(n: u32) -> Seq<char> {
    render_nat(n as nat)
}

pub proof fn lemma_render_nat(n: nat)
    ensures
        render_nat(n).len() >= 1,
        all_digits(render_nat(n)),
        digits_val(render_nat(n)) == n,
    decreases n,
{
    if n < 10 {
        let s = render_nat(n);
        assert(s.drop_last() =~= Seq::<char>::empty());
        assert(s.last() == digit_char(n as int));
        assert(digit_val(digit_char(n as int)) == n);
        assert(digits_val(Seq::<char>::empty()) == 0);
        assert(digits_val(s) == digits_val(Seq::<char>::empty()) * 10 + digit_val(s.last()));
        assert(digits_val(s) == n);
        assert(is_digit_char(digit_char(n as int)));
        assert forall|j: int| 0 <= j < s.len() implies is_digit_char(#[trigger] s[j]) by {
            assert(s[j] == digit_char(n as int));
        }
    } else {
        lemma_render_nat(n / 10);
        let s = render_nat(n);
        assert(s.drop_last() =~= render_nat(n / 10));
        let m = (n % 10) as int;
        assert(0 <= m <= 9);
        assert(digit_val(digit_char(m)) == m);
        assert(digits_val(s) == digits_val(render_nat(n / 10)) * 10 + digit_val(digit_char(m)));
        vstd::arithmetic::div_mod::lemma_fundamental_div_mod(n as int, 10);
        assert(digits_val(s) == n);
        let p = render_nat(n / 10);
        assert forall|j: int| 0 <= j < s.len() implies is_digit_char(#[trigger] s[j]) by {
            if j < s.len() - 1 {
                assert(s[j] == p[j]);
            } else {
                assert(s[j] == digit_char(m));
                assert(is_digit_char(digit_char(m)));
            }
        }
    }
}

/// Decimal rendering of an unsigned value parses back to the same value.
pub proof fn lemma_parse_render_u32(n: u32)
    ensures
        spec_parse_u32(render_u32(n)) == Some(n),
{
    lemma_render_nat(n as nat);
}

/// Decimal rendering of a signed value parses back to the same value.
pub proof fn lemma_parse_render_i64(t: i64)
    ensures
        spec_parse_i64(render_i64(t)) == Some(t),
{
    if t < 0 {
        let m = (0 - t as int) as nat;
        lemma_render_nat(m);
        let s = render_i64(t);
        assert(s[0] == '-');
        assert(s.skip(1) =~= render_nat(m));
        assert(s.len() >= 2);
    } else {
        lemma_render_nat(t as nat);
        let s = render_i64(t);
        assert(is_digit_char(s[0]));
        assert(s[0] != '-');
    }
}

/// Whether `c` is one of the blank characters stripped by trimming.
pub open spec fn is_ws_char(c: char) -> bool {
    c == ' ' || c == '\t' || c == '\n' || c == '\r'
}

/// `s` without its leading blank characters.
pub open spec fn trim_start_spec(s: Seq<char>) -> Seq<char>
    decreases s.len(),
{
    if s.len() > 0 && is_ws_char(s[0]) {
        trim_start_spec(s.drop_first())
    } else {
        s
    }
}

/// `s` without its trailing blank characters.
pub open spec fn trim_end_spec(s: Seq<char>) -> Seq<char>
    decreases s.len(),
{
    if s.len() > 0 && is_ws_char(s.last()) {
        trim_end_spec(s.drop_last())
    } else {
        s
    }
}

/// `s` without leading and trailing blank characters.
pub open spec fn spec_trim(s: Seq<char>) -> Seq<char> {
    trim_end_spec(trim_start_spec(s))
}

proof fn lemma_trim_start_skip(s: Seq<char>, a: int)
    requires
        0 <= a <= s.len(),
        forall|j: int| 0 <= j < a ==> is_ws_char(#[trigger] s[j]),
        a < s.len() ==> !is_ws_char(s[a]),
    ensures
        trim_start_spec(s) == s.skip(a),
    decreases a,
{
    if a == 0 {
        assert(s.skip(0) =~= s);
    } else {
        let t = s.drop_first();
        assert(forall|j: int| 0 <= j < a - 1 ==> is_ws_char(#[trigger] t[j]));
        lemma_trim_start_skip(t, a - 1);
        assert(t.skip(a - 1) =~= s.skip(a));
    }
}

proof fn lemma_trim_end_take(s: Seq<char>, b: int)
    requires
        0 <= b <= s.len(),
        forall|j: int| b <= j < s.len() ==> is_ws_char(#[trigger] s[j]),
        b > 0 ==> !is_ws_char(s[b - 1]),
    ensures
        trim_end_spec(s) == s.take(b),
    decreases s.len() - b,
{
    if b == s.len() {
        assert(s.take(b) =~= s);
    } else {
        let t = s.drop_last();
        assert(forall|j: int| b <= j < t.len() ==> is_ws_char(#[trigger] t[j]));
        lemma_trim_end_take(t, b);
        assert(t.take(b) =~= s.take(b));
    }
}

/// Whether `c` is one of the blank characters stripped by trimming.
pub fn is_ws(c: char) -> (r: bool)
    ensures
        r == is_ws_char(c),
{
    c == ' ' || c == '\t' || c == '\n' || c == '\r'
}

/// Removes leading and trailing blank characters.
pub fn trim_chars(cs: &Vec<char>) -> (r: Vec<char>)
    ensures
        r@ == spec_trim(cs@),
{
    let n = cs.len();
    let mut a: usize = 0;
    while a < n && is_ws(cs[a])
        invariant
            n == cs@.len(),
            a <= n,
            forall|j: int| 0 <= j < a ==> is_ws_char(#[trigger] cs@[j]),
        decreases n - a,
    {
        a = a + 1;
    }
    let mut b: usize = n;
    while b > a && is_ws(cs[b - 1])
        invariant
            n == cs@.len(),
            a <= b <= n,
            forall|j: int| 0 <= j < a ==> is_ws_char(#[trigger] cs@[j]),
            forall|j: int| b <= j < n ==> is_ws_char(#[trigger] cs@[j]),
        decreases b,
    {
        b = b - 1;
    }
    proof {
        lemma_trim_start_skip(cs@, a as int);
        let t = cs@.skip(a as int);
        assert(forall|j: int| b - a <= j < t.len() ==> is_ws_char(#[trigger] t[j]));
        lemma_trim_end_take(t, b - a);
    }
    let mut r: Vec<char> = Vec::new();
    let mut i: usize = a;
    while i < b
        invariant
            a <= i <= b <= cs@.len(),
            r@ == cs@.skip(a as int).take(i - a),
        decreases b - i,
    {
        proof {
            let t = cs@.skip(a as int);
            assert(t.take(i + 1 - a) =~= t.take(i - a).push(cs@[i as int]));
        }
        r.push(cs[i]);
        i = i + 1;
    }
    r
}

/// The pieces of `ps` joined with the separator character between them.
pub open spec fn spec_join(ps: Seq<Seq<char>>, sep: char) -> Seq<char>
    recommends
        ps.len() >= 1,
    decreases ps.len(),
{
    if ps.len() <= 1 {
        if ps.len() == 1 {
            ps[0]
        } else {
            Seq::<char>::empty()
        }
    } else {
        ps[0] + seq![sep] + spec_join(ps.drop_first(), sep)
    }
}

/// Splitting a piece that holds no separator gives back that piece alone.
pub proof fn lemma_split_sep_free(f: Seq<char>, sep: char)
    requires
        forall|i: int| 0 <= i < f.len() ==> #[trigger] f[i] != sep,
    ensures
        spec_split(f, sep) == seq![f],
    decreases f.len(),
{
    if f.len() == 0 {
        assert(spec_split(f, sep) =~~= seq![f]);
    } else {
        let t = f.drop_first();
        lemma_split_sep_free(t, sep);
        assert(spec_split(f, sep) == prepend_first(seq![f[0]], seq![t]));
        assert(seq![f[0]] + t =~= f);
        assert(prepend_first(seq![f[0]], seq![t]) =~~= seq![f]);
    }
}

/// Splitting `f`, a separator, then `rest`, yields `f` followed by the
/// pieces of `rest`, provided `f` holds no separator.
pub proof fn lemma_split_concat(f: Seq<char>, rest: Seq<char>, sep: char)
    requires
        forall|i: int| 0 <= i < f.len() ==> #[trigger] f[i] != sep,
    ensures
        spec_split(f + seq![sep] + rest, sep) == seq![f] + spec_split(rest, sep),
    decreases f.len(),
{
    let s = f + seq![sep] + rest;
    if f.len() == 0 {
        assert(s[0] == sep);
        assert(s.drop_first() =~= rest);
        assert(spec_split(s, sep) == seq![Seq::<char>::empty()] + spec_split(rest, sep));
        assert(seq![Seq::<char>::empty()] + spec_split(rest, sep) =~~= seq![f] + spec_split(
            rest,
            sep,
        ));
    } else {
        let t = f.drop_first();
        assert(s[0] == f[0]);
        assert(s[0] != sep);
        assert(s.drop_first() =~= t + seq![sep] + rest);
        lemma_split_concat(t, rest, sep);
        lemma_split_len(rest, sep);
        assert(spec_split(s, sep) == prepend_first(
            seq![f[0]],
            seq![t] + spec_split(rest, sep),
        ));
        assert(seq![f[0]] + t =~= f);
        assert(prepend_first(seq![f[0]], seq![t] + spec_split(rest, sep)) =~~= seq![f]
            + spec_split(rest, sep));
    }
}

/// Splitting a join gives back the pieces, provided no piece holds the
/// separator.
pub proof fn lemma_split_join(ps: Seq<Seq<char>>, sep: char)
    requires
        ps.len() >= 1,
        forall|k: int, i: int|
            0 <= k < ps.len() && 0 <= i < ps[k].len() ==> #[trigger] ps[k][i] != sep,
    ensures
        spec_split(spec_join(ps, sep), sep) == ps,
    decreases ps.len(),
{
    if ps.len() == 1 {
        assert(forall|i: int| 0 <= i < ps[0].len() ==> #[trigger] ps[0][i] != sep);
        lemma_split_sep_free(ps[0], sep);
        assert(spec_split(spec_join(ps, sep), sep) =~~= ps);
    } else {
        let t = ps.drop_first();
        assert(forall|k: int, i: int|
            0 <= k < t.len() && 0 <= i < t[k].len() ==> #[trigger] t[k][i] != sep);
        lemma_split_join(t, sep);
        assert(forall|i: int| 0 <= i < ps[0].len() ==> #[trigger] ps[0][i] != sep);
        lemma_split_concat(ps[0], spec_join(t, sep), sep);
        assert(seq![ps[0]] + t =~= ps);
    }
}

/// Splitting a piece that holds no first-separator character gives back
/// that piece alone, for a separator sequence.
pub proof fn lemma_split_seq_free(f: Seq<char>, sep: Seq<char>)
    requires
        sep.len() >= 1,
        forall|i: int| 0 <= i < f.len() ==> #[trigger] f[i] != sep[0],
    ensures
        spec_split_seq(f, sep) == seq![f],
    decreases f.len(),
{
    if f.len() == 0 {
        assert(spec_split_seq(f, sep) =~~= seq![f]);
    } else {
        if spec_starts_with(f, sep) {
            assert(f.take(sep.len() as int)[0] == f[0]);
            assert(false);
        }
        let t = f.drop_first();
        lemma_split_seq_free(t, sep);
        assert(spec_split_seq(f, sep) == prepend_first(seq![f[0]], seq![t]));
        assert(seq![f[0]] + t =~= f);
        assert(prepend_first(seq![f[0]], seq![t]) =~~= seq![f]);
    }
}

/// Splitting `f`, a separator sequence, then `rest`, yields `f` followed by
/// the pieces of `rest`, provided `f` holds no first-separator character.
pub proof fn lemma_split_seq_concat(f: Seq<char>, rest: Seq<char>, sep: Seq<char>)
    requires
        sep.len() >= 1,
        forall|i: int| 0 <= i < f.len() ==> #[trigger] f[i] != sep[0],
    ensures
        spec_split_seq(f + sep + rest, sep) == seq![f] + spec_split_seq(rest, sep),
    decreases f.len(),
{
    let s = f + sep + rest;
    if f.len() == 0 {
        assert(s.take(sep.len() as int) =~= sep);
        assert(spec_starts_with(s, sep));
        assert(s.skip(sep.len() as int) =~= rest);
        assert(spec_split_seq(s, sep) == seq![Seq::<char>::empty()] + spec_split_seq(rest, sep));
        assert(seq![Seq::<char>::empty()] + spec_split_seq(rest, sep) =~~= seq![f]
            + spec_split_seq(rest, sep));
    } else {
        let t = f.drop_first();
        assert(s[0] == f[0]);
        if spec_starts_with(s, sep) {
            assert(s.take(sep.len() as int)[0] == s[0]);
            assert(false);
        }
        assert(s.drop_first() =~= t + sep + rest);
        lemma_split_seq_concat(t, rest, sep);
        lemma_split_seq_len(rest, sep);
        assert(spec_split_seq(s, sep) == prepend_first(
            seq![f[0]],
            seq![t] + spec_split_seq(rest, sep),
        ));
        assert(seq![f[0]] + t =~= f);
        assert(prepend_first(seq![f[0]], seq![t] + spec_split_seq(rest, sep)) =~~= seq![f]
            + spec_split_seq(rest, sep));
    }
}

/// The characters of `cs` from `a` (inclusive) to `b` (exclusive).
pub fn subvec(cs: &Vec<char>, a: usize, b: usize) -> (r: Vec<char>)
    requires
        a <= b <= cs@.len(),
    ensures
        r@ == cs@.subrange(a as int, b as int),
{
    let mut r: Vec<char> = Vec::new();
    let mut i: usize = a;
    while i < b
        invariant
            a <= i <= b <= cs@.len(),
            r@ == cs@.subrange(a as int, i as int),
        decreases b - i,
    {
        proof {
            assert(cs@.subrange(a as int, i + 1) =~= cs@.subrange(a as int, i as int).push(
                cs@[i as int],
            ));
        }
        r.push(cs[i]);
        i = i + 1;
    }
    r
}

} // verus!
