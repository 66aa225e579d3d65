use vstd::prelude::*;
use vstd::string::*;
use crate::error::ConvertError;

verus! {

/// A line-lyric time tag: total minutes, seconds and centiseconds.
#[derive(Debug, Clone, Copy, PartialEq, Eq, Structural)]
pub struct TimeTag {
    pub minutes: u64,
    pub seconds: u64,
    pub centis: u64,
}

/// The largest value an hour field may hold: the most hours whose minutes, with up to 99
/// more, fit in a `u64`.
pub const HOUR_LIMIT: u64 = 307445734561825858;

pub open spec fn is_digit(c: char) -> bool {
    '0' <= c && c <= '9'
}

pub open spec fn all_digits(s: Seq<char>) -> bool {
    forall|i: int| 0 <= i < s.len() ==> is_digit(#[trigger] s[i])
}

pub open spec fn digit_value(c: char) -> nat {
    (c as nat - '0' as nat) as nat
}

/// The number that a string of decimal digits denotes.
pub open spec fn number(s: Seq<char>) -> nat
    decreases s.len(),
{
    if s.len() == 0 {
        0
    } else {
        number(s.drop_last()) * 10 + digit_value(s.last())
    }
}

/// The fields of `s` between `:` separators, in order.
pub open spec fn fields(s: Seq<char>) -> Seq<Seq<char>>
    decreases s.len(),
{
    if s.len() == 0 {
        seq![Seq::<char>::empty()]
    } else {
        let r = fields(s.drop_last());
        if s.last() == ':' {
            r.push(Seq::<char>::empty())
        } else {
            r.update(r.len() - 1, r.last().push(s.last()))
        }
    }
}

/// A run of `lo` to `hi` digits.
pub open spec fn digit_run(s: Seq<char>, lo: nat, hi: nat) -> bool {
    lo <= s.len() <= hi && all_digits(s)
}

/// The last field: one or two digits of seconds, a dot, three digits of milliseconds.
pub open spec fn seconds_field(f: Seq<char>) -> bool {
    (f.len() == 5 || f.len() == 6) && f[f.len() - 4] == '.'
        && digit_run(f.subrange(0, f.len() - 4), 1, 2)
        && digit_run(f.subrange(f.len() - 3, f.len() as int), 3, 3)
}

pub open spec fn seconds_of(f: Seq<char>) -> nat {
    number(f.subrange(0, f.len() - 4))
}

pub open spec fn millis_of(f: Seq<char>) -> nat {
    number(f.subrange(f.len() - 3, f.len() as int))
}

/// Total minutes denoted by the fields before the seconds field, if they are well formed.
///
/// One leading field of one or two digits is minutes; one of more digits is hours.
/// Two leading fields are hours and then one or two digits of minutes.
pub open spec fn leading_minutes(fs: Seq<Seq<char>>) -> Option<nat> {
    if fs.len() == 1 {
        Some(0)
    } else if fs.len() == 2 && digit_run(fs[0], 1, 2) {
        Some(number(fs[0]))
    } else if fs.len() == 2 && digit_run(fs[0], 3, fs[0].len()) && number(fs[0]) <= HOUR_LIMIT {
        Some(number(fs[0]) * 60)
    } else if fs.len() == 3 && digit_run(fs[0], 1, fs[0].len()) && number(fs[0]) <= HOUR_LIMIT
        && digit_run(fs[1], 1, 2) {
        Some(number(fs[0]) * 60 + number(fs[1]))
    } else {
        None
    }
}

/// The time tag that a source timestamp `[[HH:]MM:]SS.fff` denotes, if it is one.
pub open spec fn parse_timestamp(s: Seq<char>) -> Option<TimeTag> {
    parse_timestamp_fields(fields(s))
}

/// The time tag that the `:`-separated fields `fs` denote, if they are well formed.
pub open spec fn parse_timestamp_fields(fs: Seq<Seq<char>>) -> Option<TimeTag> {
    let last = fs.last();
    if fs.len() <= 3 && seconds_field(last) && leading_minutes(fs).is_some() {
        Some(
            TimeTag {
                minutes: leading_minutes(fs).unwrap() as u64,
                seconds: seconds_of(last) as u64,
                centis: (millis_of(last) / 10) as u64,
            },
        )
    } else {
        None
    }
}

pub open spec fn digit_char(d: nat) -> char {
    if d == 0 { '0' }
    else if d == 1 { '1' }
    else if d == 2 { '2' }
    else if d == 3 { '3' }
    else if d == 4 { '4' }
    else if d == 5 { '5' }
    else if d == 6 { '6' }
    else if d == 7 { '7' }
    else if d == 8 { '8' }
    else { '9' }
}

/// Decimal digits of `n`, without leading zeros.
pub open spec fn decimal(n: nat) -> Seq<char>
    decreases n,
{
    if n < 10 {
        seq![digit_char(n)]
    } else {
        decimal(n / 10).push(digit_char(n % 10))
    }
}

/// Decimal digits of `n`, zero-padded to at least two.
pub open spec fn pad2(n: nat) -> Seq<char> {
    if n < 10 { seq!['0'] + decimal(n) } else { decimal(n) }
}

impl TimeTag {
    /// The text `MM:SS.cc` of this tag.
    pub open spec fn text(self) -> Seq<char> {
        pad2(self.minutes as nat) + seq![':'] + pad2(self.seconds as nat) + seq!['.'] + pad2(
            self.centis as nat,
        )
    }

    /// Writes the tag as `MM:SS.cc`.
    pub fn to_text(&self) -> (r: String)
        ensures
            r@ == self.text(),
    {
        let mut s = String::new();
        push_padded(&mut s, self.minutes);
        push_literal_colon(&mut s);
        push_padded(&mut s, self.seconds);
        push_literal_dot(&mut s);
        push_padded(&mut s, self.centis);
        s
    }
}

fn push_literal_colon(s: &mut String)
    ensures
        final(s)@ == old(s)@ + seq![':'],
{
    proof {
        reveal_strlit(":");
    }
    s.append(":");
}

fn push_literal_dot(s: &mut String)
    ensures
        final(s)@ == old(s)@ + seq!['.'],
{
    proof {
        reveal_strlit(".");
    }
    s.append(".");
}

fn push_digit(s: &mut String, d: u64)
    requires
        d < 10,
    ensures
        final(s)@ == old(s)@.push(digit_char(d as nat)),
{
    proof {
        reveal_strlit("0");
        reveal_strlit("1");
        reveal_strlit("2");
        reveal_strlit("3");
        reveal_strlit("4");
        reveal_strlit("5");
        reveal_strlit("6");
        reveal_strlit("7");
        reveal_strlit("8");
        reveal_strlit("9");
    }
    if d == 0 {
        s.append("0");
    } else if d == 1 {
        s.append("1");
    } else if d == 2 {
        s.append("2");
    } else if d == 3 {
        s.append("3");
    } else if d == 4 {
        s.append("4");
    } else if d == 5 {
        s.append("5");
    } else if d == 6 {
        s.append("6");
    } else if d == 7 {
        s.append("7");
    } else if d == 8 {
        s.append("8");
    } else {
        s.append("9");
    }
}

fn push_decimal(s: &mut String, n: u64)
    ensures
        final(s)@ == old(s)@ + decimal(n as nat),
    decreases n,
{
    if n >= 10 {
        push_decimal(s, n / 10);
    }
    push_digit(s, n % 10);
}

fn push_padded(s: &mut String, n: u64)
    ensures
        final(s)@ == old(s)@ + pad2(n as nat),
{
    if n < 10 {
        push_digit(s, 0);
    }
    push_decimal(s, n);
    proof {
        if n < 10 {
            assert(old(s)@ + pad2(n as nat) =~= old(s)@.push('0') + decimal(n as nat));
        }
    }
}

/// The characters of `s`, in order.
pub fn chars_of(s: &str) -> (r: Vec<char>)
    ensures
        r@ == s@,
{
    let n = s.unicode_len();
    let mut r: Vec<char> = Vec::new();
    let mut i: usize = 0;
    while i < n
        invariant
            n == s@.len(),
            i <= n,
            r@ == s@.subrange(0, i as int),
        decreases n - i,
    {
        let c = s.get_char(i);
        r.push(c);
        i = i + 1;
        assert(r@ =~= s@.subrange(0, i as int));
    }
    assert(r@ =~= s@);
    r
}


proof fn lemma_fields_without_colon(s: Seq<char>)
    requires
        forall|i: int| 0 <= i < s.len() ==> s[i] != ':',
    ensures
        fields(s) == seq![s],
    decreases s.len(),
{
    if s.len() > 0 {
        lemma_fields_without_colon(s.drop_last());
        assert(s.drop_last().push(s.last()) =~= s);
    } else {
        assert(s =~= Seq::<char>::empty());
    }
}

/// A bare `SS.fff` or `S.fff` translates to zero minutes, `SS` seconds and `fff / 10`
/// centiseconds, written `00:SS.cc`.
pub proof fn lemma_seconds_only(s: Seq<char>)
    requires
        s.len() == 5 || s.len() == 6,
        s[s.len() - 4] == '.',
        all_digits(s.subrange(0, s.len() - 4)),
        all_digits(s.subrange(s.len() - 3, s.len() as int)),
        number(s.subrange(0, s.len() - 4)) <= 59,
    ensures
        parse_timestamp(s) == Some(
            TimeTag {
                minutes: 0,
                seconds: number(s.subrange(0, s.len() - 4)) as u64,
                centis: (number(s.subrange(s.len() - 3, s.len() as int)) / 10) as u64,
            },
        ),
        number(s.subrange(s.len() - 3, s.len() as int)) <= 999,
        parse_timestamp(s).unwrap().text() == seq!['0', '0', ':'] + pad2(
            number(s.subrange(0, s.len() - 4)),
        ) + seq!['.'] + pad2(number(s.subrange(s.len() - 3, s.len() as int)) / 10),
{
    let n = s.len() as int;
    assert forall|i: int| 0 <= i < s.len() implies s[i] != ':' by {
        if i < n - 4 {
            assert(s[i] == s.subrange(0, n - 4)[i]);
        } else if i > n - 4 {
            assert(s[i] == s.subrange(n - 3, n)[i - (n - 3)]);
        }
    }
    lemma_fields_without_colon(s);
    lemma_number_below(s.subrange(n - 3, n));
    reveal_with_fuel(limit_of, 4);
    reveal_with_fuel(decimal, 2);
    let t = parse_timestamp(s).unwrap();
    assert(pad2(0) =~= seq!['0', '0']);
    assert(t.text() =~= seq!['0', '0', ':'] + pad2(number(s.subrange(0, n - 4))) + seq!['.']
        + pad2(number(s.subrange(n - 3, n)) / 10));
}

proof fn lemma_fields_nonempty(s: Seq<char>)
    ensures
        fields(s).len() >= 1,
    decreases s.len(),
{
    if s.len() > 0 {
        lemma_fields_nonempty(s.drop_last());
    }
}

proof fn lemma_number_prefix(s: Seq<char>, i: int)
    requires
        0 <= i <= s.len(),
    ensures
        number(s.subrange(0, i)) <= number(s),
    decreases s.len(),
{
    if i < s.len() {
        lemma_number_prefix(s.drop_last(), i);
        assert(s.drop_last().subrange(0, i) =~= s.subrange(0, i));
    } else {
        assert(s.subrange(0, i) =~= s);
    }
}

spec fn limit_of(n: nat) -> nat
    decreases n,
{
    if n == 0 { 1 } else { 10 * limit_of((n - 1) as nat) }
}

proof fn lemma_number_below(s: Seq<char>)
    requires
        all_digits(s),
    ensures
        number(s) < limit_of(s.len()),
    decreases s.len(),
{
    if s.len() > 0 {
        let t = s.drop_last();
        assert(all_digits(t)) by {
            assert forall|i: int| 0 <= i < t.len() implies is_digit(#[trigger] t[i]) by {
                assert(t[i] == s[i]);
            }
        }
        lemma_number_below(t);
        assert(is_digit(s[s.len() - 1]));
        let a = number(t);
        let b = limit_of(t.len());
        let d = digit_value(s.last());
        assert(a * 10 + d < 10 * b) by (nonlinear_arith)
            requires
                a < b,
                d <= 9,
        ;
    }
}

/// Reads a non-empty run of digits whose value is at most `HOUR_LIMIT`.
fn read_number(d: &Vec<char>) -> (r: Option<u64>)
    ensures
        r is Some <==> (d@.len() > 0 && all_digits(d@) && number(d@) <= HOUR_LIMIT),
        r is Some ==> r->Some_0 == number(d@),
{
    if d.len() == 0 {
        return None;
    }
    let mut acc: u64 = 0;
    let mut i: usize = 0;
    while i < d.len()
        invariant
            i <= d@.len(),
            all_digits(d@.subrange(0, i as int)),
            acc == number(d@.subrange(0, i as int)),
            acc <= HOUR_LIMIT,
        decreases d@.len() - i,
    {
        let c = d[i];
        if !('0' <= c && c <= '9') {
            assert(!all_digits(d@)) by {
                assert(!is_digit(d@[i as int]));
            }
            return None;
        }
        let next = acc * 10 + (c as u64 - '0' as u64);
        let ghost pre = d@.subrange(0, i as int + 1);
        assert(pre.drop_last() =~= d@.subrange(0, i as int));
        assert(pre.last() == c);
        assert(all_digits(pre)) by {
            assert forall|k: int| 0 <= k < pre.len() implies is_digit(#[trigger] pre[k]) by {
                if k < i {
                    assert(pre[k] == d@.subrange(0, i as int)[k]);
                }
            }
        }
        if next > HOUR_LIMIT {
            proof {
                if all_digits(d@) {
                    lemma_number_prefix(d@, i as int + 1);
                }
            }
            return None;
        }
        acc = next;
        i = i + 1;
    }
    assert(d@.subrange(0, d@.len() as int) =~= d@);
    Some(acc)
}

/// The characters of `v` from `a` up to `b`.
fn slice_of(v: &Vec<char>, a: usize, b: usize) -> (r: Vec<char>)
    requires
        a <= b <= v@.len(),
    ensures
        r@ == v@.subrange(a as int, b as int),
{
    let mut r: Vec<char> = Vec::new();
    let mut i: usize = a;
    while i < b
        invariant
            a <= i <= b,
            b <= v@.len(),
            r@ == v@.subrange(a as int, i as int),
        decreases b - i,
    {
        r.push(v[i]);
        i = i + 1;
        assert(r@ =~= v@.subrange(a as int, i as int));
    }
    r
}

/// Splits `cs` at each `:`.
fn split_fields(cs: &Vec<char>) -> (r: Vec<Vec<char>>)
    ensures
        r@.len() == fields(cs@).len(),
        forall|k: int| 0 <= k < r@.len() ==> #[trigger] r@[k]@ == fields(cs@)[k],
{
    let mut done: Vec<Vec<char>> = Vec::new();
    let mut cur: Vec<char> = Vec::new();
    let mut i: usize = 0;
    assert(fields(cs@.subrange(0, 0)) =~= seq![Seq::<char>::empty()]);
    while i < cs.len()
        invariant
            i <= cs@.len(),
            fields(cs@.subrange(0, i as int)).len() == done@.len() + 1,
            forall|k: int|
                0 <= k < done@.len() ==> #[trigger] done@[k]@ == fields(
                    cs@.subrange(0, i as int),
                )[k],
            cur@ == fields(cs@.subrange(0, i as int)).last(),
        decreases cs@.len() - i,
    {
        let c = cs[i];
        let ghost pre = cs@.subrange(0, i as int + 1);
        assert(pre.drop_last() =~= cs@.subrange(0, i as int));
        if c == ':' {
            done.push(cur);
            cur = Vec::new();
        } else {
            cur.push(c);
        }
        i = i + 1;
    }
    assert(cs@.subrange(0, cs@.len() as int) =~= cs@);
    done.push(cur);
    done
}

/// Translates a source timestamp `[[HH:]MM:]SS.fff` into a line-lyric time tag.
///
/// Hours are folded into the minutes and milliseconds are truncated to centiseconds.
pub fn ttml_timetag_to_lrc_timetag(ttml: &str) -> (r: Result<TimeTag, ConvertError>)
    ensures
        parse_timestamp(ttml@) is Some ==> r == Ok::<TimeTag, ConvertError>(
            parse_timestamp(ttml@).unwrap(),
        ),
        parse_timestamp(ttml@) is None ==> r is Err && r->Err_0 is MalformedTimestamp
            && r->Err_0->MalformedTimestamp_0@ == ttml@,
{
    let cs = chars_of(ttml);
    let fs = split_fields(&cs);
    proof {
        lemma_fields_nonempty(ttml@);
    }
    assert(fs@.map_values(|f: Vec<char>| f@) =~= fields(ttml@));
    match tag_of_fields(&fs) {
        Some(t) => Ok(t),
        None => Err(ConvertError::MalformedTimestamp(ttml.to_owned())),
    }
}

fn tag_of_fields(fs: &Vec<Vec<char>>) -> (r: Option<TimeTag>)
    requires
        fs@.len() >= 1,
    ensures
        r == parse_timestamp_fields(fs@.map_values(|f: Vec<char>| f@)),
{
    let n = fs.len();
    if n > 3 {
        return None;
    }
    let last = &fs[n - 1];
    let len = last.len();
    if !(len == 5 || len == 6) || last[len - 4] != '.' {
        return None;
    }
    let sec_digits = slice_of(last, 0, len - 4);
    let ms_digits = slice_of(last, len - 3, len);
    proof {
        if all_digits(sec_digits@) {
            lemma_number_below(sec_digits@);
            reveal_with_fuel(limit_of, 3);
        }
        if all_digits(ms_digits@) {
            lemma_number_below(ms_digits@);
            reveal_with_fuel(limit_of, 4);
        }
    }
    let seconds = match read_number(&sec_digits) {
        Some(v) => v,
        None => return None,
    };
    let millis = match read_number(&ms_digits) {
        Some(v) => v,
        None => return None,
    };
    let minutes: u64 = if n == 1 {
        0
    } else if n == 2 {
        let f0 = &fs[0];
        proof {
            if all_digits(f0@) && f0@.len() <= 2 {
                lemma_number_below(f0@);
                reveal_with_fuel(limit_of, 3);
            }
        }
        match read_number(f0) {
            Some(v) => if f0.len() <= 2 { v } else { v * 60 },
            None => return None,
        }
    } else {
        let f1 = &fs[1];
        proof {
            if all_digits(f1@) && f1@.len() <= 2 {
                lemma_number_below(f1@);
                reveal_with_fuel(limit_of, 3);
            }
        }
        let h = match read_number(&fs[0]) {
            Some(v) => v,
            None => return None,
        };
        if f1.len() > 2 {
            return None;
        }
        let m = match read_number(f1) {
            Some(v) => v,
            None => return None,
        };
        h * 60 + m
    };
    Some(TimeTag { minutes, seconds, centis: millis / 10 })
}

} // verus!
