use vstd::prelude::*;

verus! {

/// The decimal digit `d` as a character.
pub open spec fn digit_char(d: nat) -> char {
    if d == 0 {
        '0'
    } else if d == 1 {
        '1'
    } else if d == 2 {
        '2'
    } else if d == 3 {
        '3'
    } else if d == 4 {
        '4'
    } else if d == 5 {
        '5'
    } else if d == 6 {
        '6'
    } else if d == 7 {
        '7'
    } else if d == 8 {
        '8'
    } else {
        '9'
    }
}

/// The value of the decimal digit `c`, or `-1` for a character that is no digit.
pub open spec fn digit_value(c: char) -> int {
    if c == '0' {
        0
    } else if c == '1' {
        1
    } else if c == '2' {
        2
    } else if c == '3' {
        3
    } else if c == '4' {
        4
    } else if c == '5' {
        5
    } else if c == '6' {
        6
    } else if c == '7' {
        7
    } else if c == '8' {
        8
    } else if c == '9' {
        9
    } else {
        -1
    }
}

/// Whether `c` is one of the ten decimal digits.
pub open spec fn is_digit(c: char) -> bool {
    digit_value(c) >= 0
}

/// The value of a string of decimal digits.
pub open spec fn value(q: Seq<char>) -> int
    decreases q.len(),
{
    if q.len() == 0 {
        0
    } else {
        value(q.drop_last()) * 10 + digit_value(q.last())
    }
}

/// Ten to the power `k`.
pub open spec fn pow10(k: nat) -> nat
    decreases k,
{
    if k == 0 {
        1
    } else {
        10 * pow10((k - 1) as nat)
    }
}

/// The decimal numeral of `n`, without leading zeros.
pub open spec fn decimal(n: nat) -> Seq<char>
    decreases n,
{
    if n < 10 {
        seq![digit_char(n)]
    } else {
        decimal(n / 10) + seq![digit_char(n % 10)]
    }
}

/// One cell written as `row,col`.
pub open spec fn pair_text(p: (u16, u16)) -> Seq<char> {
    decimal(p.0 as nat) + seq![','] + decimal(p.1 as nat)
}

/// The cells written one after another, separated by `:`.
pub open spec fn pattern_text(cells: Seq<(u16, u16)>) -> Seq<char>
    decreases cells.len(),
{
    if cells.len() == 0 {
        Seq::empty()
    } else if cells.len() == 1 {
        pair_text(cells[0])
    } else {
        pattern_text(cells.drop_last()) + seq![':'] + pair_text(cells.last())
    }
}

/// The character of the decimal digit `d`.
fn digit(d: u16) -> (c: char)
    requires
        d < 10,
    ensures
        c == digit_char(d as nat),
{
    match d {
        0 => '0',
        1 => '1',
        2 => '2',
        3 => '3',
        4 => '4',
        5 => '5',
        6 => '6',
        7 => '7',
        8 => '8',
        _ => '9',
    }
}

/// Appends the decimal numeral of `n` to `out`.
pub fn push_decimal(out: &mut Vec<char>, n: u16)
    ensures
        final(out)@ == old(out)@ + decimal(n as nat),
    decreases n,
{
    if n >= 10 {
        push_decimal(out, n / 10);
    }
    out.push(digit(n % 10));
    proof {
        if n < 10 {
            assert(decimal(n as nat) == seq![digit_char(n as nat)]);
        }
    }
}

/// Appends `row,col` to `out`.
fn push_pair(out: &mut Vec<char>, p: (u16, u16))
    ensures
        final(out)@ == old(out)@ + pair_text(p),
{
    let ghost start = out@;
    push_decimal(out, p.0);
    out.push(',');
    push_decimal(out, p.1);
    assert(out@ =~= start + pair_text(p));
}

/// The text of `cells`: each cell as `row,col`, separated by `:`.
pub fn pattern_chars(cells: &Vec<(u16, u16)>) -> (r: Vec<char>)
    ensures
        r@ == pattern_text(cells@),
{
    let mut out: Vec<char> = Vec::new();
    let mut i: usize = 0;
    while i < cells.len()
        invariant
            i <= cells@.len(),
            out@ == pattern_text(cells@.subrange(0, i as int)),
        decreases cells@.len() - i,
    {
        let ghost before = out@;
        if i > 0 {
            out.push(':');
        }
        push_pair(&mut out, cells[i]);
        proof {
            let next = cells@.subrange(0, i + 1);
            assert(next.drop_last() =~= cells@.subrange(0, i as int));
            assert(next.last() == cells@[i as int]);
            assert(out@ =~= pattern_text(next));
        }
        i = i + 1;
    }
    assert(cells@.subrange(0, cells@.len() as int) =~= cells@);
    out
}

/// Relies on std's `FromIterator<char>` for `String`: the string holds the characters in order.
#[verifier::external_body]
pub(crate) fn string_from_chars(chars: &Vec<char>) -> (s: String)
    ensures
        s@ == chars@,
{
    chars.iter().collect()
}

/// The numeral of `n` is a non-empty run of digits that reads back as `n`.
pub proof fn lemma_decimal_reads_back(n: nat)
    ensures
        decimal(n).len() >= 1,
        forall|i: int| 0 <= i < decimal(n).len() ==> is_digit(#[trigger] decimal(n)[i]),
        value(decimal(n)) == n,
    decreases n,
{
    if n < 10 {
        assert(decimal(n).drop_last() =~= Seq::<char>::empty());
        assert(digit_value(digit_char(n)) == n);
        assert(decimal(n).last() == digit_char(n));
        assert(value(decimal(n)) == value(decimal(n).drop_last()) * 10 + digit_value(decimal(n).last()));
        assert(value(Seq::<char>::empty()) == 0);
    } else {
        lemma_decimal_reads_back(n / 10);
        let d = decimal(n);
        assert(d.drop_last() =~= decimal(n / 10));
        assert(d.last() == digit_char(n % 10));
        assert(digit_value(digit_char(n % 10)) == n % 10);
        assert((n / 10) * 10 + n % 10 == n);
        assert(value(d) == value(d.drop_last()) * 10 + digit_value(d.last()));
        assert forall|i: int| 0 <= i < d.len() implies is_digit(#[trigger] d[i]) by {
            if i < d.len() - 1 {
                assert(d[i] == decimal(n / 10)[i]);
            }
        }
    }
}

/// A number below `10^k` has at most `k` digits.
pub proof fn lemma_decimal_len(n: nat, k: nat)
    requires
        k >= 1,
        n < pow10(k),
    ensures
        decimal(n).len() <= k,
    decreases n,
{
    if n >= 10 {
        let k1 = (k - 1) as nat;
        if k1 == 0 {
            assert(pow10(1) == 10) by {
                assert(pow10(0) == 1);
            }
        } else {
            assert(pow10(k) == 10 * pow10(k1));
            assert(n / 10 < pow10(k1)) by (nonlinear_arith)
                requires
                    n < 10 * pow10(k1),
            ;
            lemma_decimal_len(n / 10, k1);
        }
    }
}

/// The value of a run of at most `k` digits is below `10^k`.
pub proof fn lemma_value_bound(q: Seq<char>)
    requires
        forall|i: int| 0 <= i < q.len() ==> is_digit(#[trigger] q[i]),
    ensures
        0 <= value(q) < pow10(q.len()),
    decreases q.len(),
{
    if q.len() > 0 {
        let p = q.drop_last();
        assert forall|i: int| 0 <= i < p.len() implies is_digit(#[trigger] p[i]) by {
            assert(p[i] == q[i]);
        }
        lemma_value_bound(p);
        assert(is_digit(q[q.len() - 1]));
        let v = value(p);
        let d = digit_value(q.last());
        let b = pow10(p.len());
        assert(pow10(q.len()) == 10 * b);
        assert(0 <= v * 10 + d < 10 * b) by (nonlinear_arith)
            requires
                0 <= v < b,
                0 <= d <= 9,
        ;
    }
}

/// `t` holds the numeral of `n` at `start`, and the digits end there.
pub open spec fn numeral_at(t: Seq<char>, start: int, n: u16) -> bool {
    let e = start + decimal(n as nat).len();
    &&& 0 <= start
    &&& e <= t.len()
    &&& t.subrange(start, e) == decimal(n as nat)
    &&& (e == t.len() || !is_digit(t[e]))
}

/// At most one number has its numeral at a given place.
pub proof fn lemma_numeral_unique(t: Seq<char>, start: int, n: u16, m: u16)
    requires
        numeral_at(t, start, n),
        numeral_at(t, start, m),
    ensures
        n == m,
{
    let dn = decimal(n as nat);
    let dm = decimal(m as nat);
    lemma_decimal_reads_back(n as nat);
    lemma_decimal_reads_back(m as nat);
    if dn.len() < dm.len() {
        assert(t[start + dn.len()] == t.subrange(start, start + dm.len())[dn.len() as int]);
        assert(is_digit(dm[dn.len() as int]));
    } else if dm.len() < dn.len() {
        assert(t[start + dm.len()] == t.subrange(start, start + dn.len())[dm.len() as int]);
        assert(is_digit(dn[dm.len() as int]));
    }
    assert(dn == dm);
}

/// The text of two non-empty runs of cells is the two texts joined by `:`.
pub proof fn lemma_pattern_append(a: Seq<(u16, u16)>, b: Seq<(u16, u16)>)
    requires
        a.len() > 0,
        b.len() > 0,
    ensures
        pattern_text(a + b) == pattern_text(a) + seq![':'] + pattern_text(b),
    decreases b.len(),
{
    let ab = a + b;
    assert(ab.drop_last() =~= a + b.drop_last());
    assert(ab.last() == b.last());
    if b.len() == 1 {
        assert(ab.drop_last() =~= a);
        assert(pattern_text(b) == pair_text(b[0]));
    } else {
        lemma_pattern_append(a, b.drop_last());
        assert(pattern_text(ab) =~= pattern_text(a) + seq![':'] + pattern_text(b));
    }
}

/// The text of the cells before `k`, followed by a `:` when there are any.
pub open spec fn text_before(w: Seq<(u16, u16)>, k: int) -> Seq<char> {
    if k == 0 {
        Seq::empty()
    } else {
        pattern_text(w.subrange(0, k)) + seq![':']
    }
}

/// The text of the cells after `k`, preceded by a `:` when there are any.
pub open spec fn text_after(w: Seq<(u16, u16)>, k: int) -> Seq<char> {
    if k + 1 == w.len() {
        Seq::empty()
    } else {
        seq![':'] + pattern_text(w.subrange(k + 1, w.len() as int))
    }
}

/// The text of a run of cells, cut at the `k`-th cell.
pub proof fn lemma_pattern_split(w: Seq<(u16, u16)>, k: int)
    requires
        0 <= k < w.len(),
    ensures
        pattern_text(w) == text_before(w, k) + pair_text(w[k]) + text_after(w, k),
{
    let single = seq![w[k]];
    assert(pattern_text(single) == pair_text(w[k]));
    let mid = if k + 1 == w.len() {
        single
    } else {
        let rest = w.subrange(k + 1, w.len() as int);
        lemma_pattern_append(single, rest);
        single + rest
    };
    assert(pattern_text(mid) == pair_text(w[k]) + text_after(w, k));
    if k == 0 {
        assert(mid =~= w);
    } else {
        let front = w.subrange(0, k);
        lemma_pattern_append(front, mid);
        assert(front + mid =~= w);
    }
}

/// A non-empty run of cells has a non-empty text.
pub proof fn lemma_pattern_nonempty(w: Seq<(u16, u16)>)
    requires
        w.len() > 0,
    ensures
        pattern_text(w).len() > 0,
{
    lemma_pattern_split(w, 0);
    lemma_decimal_reads_back(w[0].0 as nat);
}

/// Where a maximal run of digits starts at `start` and ends at `end`, a numeral at `start`
/// fills the run exactly.
pub proof fn lemma_numeral_fills_run(t: Seq<char>, start: int, end: int, m: u16)
    requires
        0 <= start <= end <= t.len(),
        forall|i: int| start <= i < end ==> is_digit(#[trigger] t[i]),
        end == t.len() || !is_digit(t[end]),
        numeral_at(t, start, m),
    ensures
        start + decimal(m as nat).len() == end,
        t.subrange(start, end) == decimal(m as nat),
{
    let d = decimal(m as nat);
    lemma_decimal_reads_back(m as nat);
    let e = start + d.len();
    if e < end {
        assert(is_digit(t[e]));
    } else if e > end {
        assert(t[end] == t.subrange(start, e)[end - start]);
        assert(is_digit(d[end - start]));
    }
}

/// The powers of ten up to the fifth, the most digits a `u16` has.
pub proof fn lemma_pow10_five()
    ensures
        pow10(5) == 100000,
        forall|k: nat| k <= 5 ==> #[trigger] pow10(k) <= 100000,
{
    assert(pow10(0) == 1);
    assert(pow10(1) == 10);
    assert(pow10(2) == 100);
    assert(pow10(3) == 1000);
    assert(pow10(4) == 10000);
    assert(pow10(5) == 100000);
}

/// The value of the decimal digit `c`, or `-1` for a character that is no digit.
fn digit_of(c: char) -> (r: i32)
    ensures
        r == digit_value(c),
{
    match c {
        '0' => 0,
        '1' => 1,
        '2' => 2,
        '3' => 3,
        '4' => 4,
        '5' => 5,
        '6' => 6,
        '7' => 7,
        '8' => 8,
        '9' => 9,
        _ => -1,
    }
}

/// Reads the numeral of a `u16` at `start`, returning the number and where its digits end;
/// `None` where no such numeral stands there.
pub fn parse_number(t: &Vec<char>, start: usize) -> (r: Option<(u16, usize)>)
    requires
        start <= t@.len(),
    ensures
        match r {
            Some((n, end)) => numeral_at(t@, start as int, n) && end == start + decimal(n as nat).len(),
            None => forall|n: u16| !numeral_at(t@, start as int, n),
        },
{
    let mut end: usize = start;
    while end < t.len() && end - start < 6 && digit_of(t[end]) >= 0
        invariant
            start <= end <= t@.len(),
            end - start <= 6,
            forall|i: int| start <= i < end ==> is_digit(#[trigger] t@[i]),
        decreases t@.len() - end,
    {
        end = end + 1;
    }
    if end == start || end - start == 6 {
        proof {
            assert forall|n: u16| !numeral_at(t@, start as int, n) by {
                if numeral_at(t@, start as int, n) {
                    let d = decimal(n as nat);
                    lemma_decimal_reads_back(n as nat);
                    assert(t@[start as int] == t@.subrange(start as int, start + d.len())[0]);
                    assert(is_digit(d[0]));
                    if end - start == 6 {
                        lemma_pow10_five();
                        lemma_decimal_len(n as nat, 5);
                        assert(is_digit(t@[start + d.len()]));
                    }
                }
            }
        }
        return None;
    }
    let ghost run = t@.subrange(start as int, end as int);
    let mut v: u32 = 0;
    let mut i: usize = start;
    while i < end
        invariant
            start <= i <= end <= t@.len(),
            end - start <= 5,
            run == t@.subrange(start as int, end as int),
            forall|j: int| start <= j < end ==> is_digit(#[trigger] t@[j]),
            v == value(t@.subrange(start as int, i as int)),
            v < pow10((i - start) as nat),
        decreases end - i,
    {
        let d = digit_of(t[i]);
        proof {
            let sub = t@.subrange(start as int, i + 1);
            assert(sub.drop_last() =~= t@.subrange(start as int, i as int));
            assert(sub.last() == t@[i as int]);
            assert(is_digit(t@[i as int]));
            lemma_pow10_five();
            let b = pow10((i - start) as nat);
            assert(pow10((i + 1 - start) as nat) == 10 * b);
            assert(v * 10 + d < 10 * b) by (nonlinear_arith)
                requires
                    v < b,
                    0 <= d <= 9,
            ;
        }
        v = v * 10 + d as u32;
        i = i + 1;
    }
    proof {
        assert(t@.subrange(start as int, end as int) == run);
    }
    if v > 65535 {
        proof {
            assert forall|n: u16| !numeral_at(t@, start as int, n) by {
                if numeral_at(t@, start as int, n) {
                    lemma_numeral_fills_run(t@, start as int, end as int, n);
                    lemma_decimal_reads_back(n as nat);
                }
            }
        }
        return None;
    }
    let n = v as u16;
    let mut enc: Vec<char> = Vec::new();
    push_decimal(&mut enc, n);
    assert(enc@ =~= decimal(n as nat));
    let mut k: usize = 0;
    while k < enc.len()
        invariant
            start <= end <= t@.len(),
            enc@ == decimal(n as nat),
            v == value(t@.subrange(start as int, end as int)),
            n == v,
            forall|j: int| start <= j < end ==> is_digit(#[trigger] t@[j]),
            end == t@.len() || !is_digit(t@[end as int]),
            k <= enc@.len(),
            k <= end - start,
            forall|j: int| 0 <= j < k ==> enc@[j] == #[trigger] t@[start + j],
        decreases enc@.len() - k,
    {
        if k >= end - start || enc[k] != t[start + k] {
            proof {
                assert forall|m: u16| !numeral_at(t@, start as int, m) by {
                    if numeral_at(t@, start as int, m) {
                        lemma_numeral_fills_run(t@, start as int, end as int, m);
                        lemma_decimal_reads_back(m as nat);
                        assert(m == n);
                        assert(t@[start + k] == t@.subrange(start as int, end as int)[k as int]);
                    }
                }
            }
            return None;
        }
        k = k + 1;
    }
    if enc.len() != end - start {
        proof {
            assert forall|m: u16| !numeral_at(t@, start as int, m) by {
                if numeral_at(t@, start as int, m) {
                    lemma_numeral_fills_run(t@, start as int, end as int, m);
                    lemma_decimal_reads_back(m as nat);
                    assert(m == n);
                }
            }
        }
        return None;
    }
    proof {
        assert(t@.subrange(start as int, end as int) =~= decimal(n as nat)) by {
            assert forall|j: int| 0 <= j < end - start implies #[trigger] t@.subrange(start as int, end as int)[j] == enc@[j] by {
                assert(enc@[j] == t@[start + j]);
            }
        }
    }
    Some((n, end))
}

/// In the text of `w`, after the text of the cells before `k`, stand the numerals of the
/// `k`-th cell with a `,` between them, followed by a `:` and more text if more cells follow,
/// and by the end of the text otherwise.
pub proof fn lemma_next_pair(t: Seq<char>, w: Seq<(u16, u16)>, k: int, pos: int)
    requires
        pattern_text(w) == t,
        0 <= k < w.len(),
        pos == text_before(w, k).len(),
    ensures
        ({
            let e1 = pos + decimal(w[k].0 as nat).len();
            let e2 = e1 + 1 + decimal(w[k].1 as nat).len();
            &&& numeral_at(t, pos, w[k].0)
            &&& e1 < t.len()
            &&& t[e1] == ','
            &&& numeral_at(t, e1 + 1, w[k].1)
            &&& (k + 1 == w.len() <==> e2 == t.len())
            &&& (k + 1 < w.len() ==> e2 + 1 < t.len() && t[e2] == ':')
        }),
{
    lemma_pattern_split(w, k);
    let da = decimal(w[k].0 as nat);
    let db = decimal(w[k].1 as nat);
    let before = text_before(w, k);
    let after = text_after(w, k);
    let e1 = pos + da.len();
    let e2 = e1 + 1 + db.len();
    assert(t == before + da + seq![','] + db + after);
    assert(t.subrange(pos, e1) =~= da);
    assert(t[e1] == ',');
    assert(t.subrange(e1 + 1, e2) =~= db);
    if k + 1 < w.len() {
        let rest = w.subrange(k + 1, w.len() as int);
        lemma_pattern_nonempty(rest);
        assert(t[e2] == ':');
        assert(!is_digit(t[e2]));
    }
}

/// Reads a pattern text back into its cells. The text of `w` gives `Some` of exactly `w`,
/// and a text that is the text of no run of cells gives `None`.
pub fn parse_pattern_chars(t: &Vec<char>) -> (r: Option<Vec<(u16, u16)>>)
    ensures
        forall|w: Seq<(u16, u16)>| #[trigger] pattern_text(w) == t@ <==> (r.is_some() && r.unwrap()@ == w),
{
    let mut v: Vec<(u16, u16)> = Vec::new();
    if t.len() == 0 {
        proof {
            assert forall|w: Seq<(u16, u16)>| #[trigger] pattern_text(w) == t@ <==> w == v@ by {
                if w.len() > 0 {
                    lemma_pattern_nonempty(w);
                } else {
                    assert(w =~= v@);
                    assert(pattern_text(w) =~= t@);
                }
            }
        }
        return Some(v);
    }
    let mut pos: usize = 0;
    loop
        invariant
            pos < t@.len(),
            v@.len() == 0 ==> pos == 0,
            v@.len() > 0 ==> t@.subrange(0, pos as int) == pattern_text(v@) + seq![':'],
            forall|w: Seq<(u16, u16)>| #[trigger]
                pattern_text(w) == t@ ==> w.len() > v@.len() && w.subrange(0, v@.len() as int) == v@,
        decreases t@.len() - pos,
    {
        let ghost k = v@.len() as int;
        proof {
            assert forall|w: Seq<(u16, u16)>| #[trigger]
                pattern_text(w) == t@ implies text_before(w, k).len() == pos by {
                if k > 0 {
                    assert(t@.subrange(0, pos as int).len() == pos);
                }
            }
        }
        let (a, e1) = match parse_number(t, pos) {
            Some(x) => x,
            None => {
                proof {
                    assert forall|w: Seq<(u16, u16)>| pattern_text(w) != t@ by {
                        if pattern_text(w) == t@ {
                            lemma_next_pair(t@, w, k, pos as int);
                        }
                    }
                }
                return None;
            },
        };
        if e1 >= t.len() || t[e1] != ',' {
            proof {
                assert forall|w: Seq<(u16, u16)>| pattern_text(w) != t@ by {
                    if pattern_text(w) == t@ {
                        lemma_next_pair(t@, w, k, pos as int);
                        lemma_numeral_unique(t@, pos as int, a, w[k].0);
                    }
                }
            }
            return None;
        }
        let (b, e2) = match parse_number(t, e1 + 1) {
            Some(x) => x,
            None => {
                proof {
                    assert forall|w: Seq<(u16, u16)>| pattern_text(w) != t@ by {
                        if pattern_text(w) == t@ {
                            lemma_next_pair(t@, w, k, pos as int);
                            lemma_numeral_unique(t@, pos as int, a, w[k].0);
                        }
                    }
                }
                return None;
            },
        };
        let ghost prev = v@;
        v.push((a, b));
        proof {
            let ta = t@.subrange(pos as int, e1 as int);
            let tb = t@.subrange(e1 + 1, e2 as int);
            assert(t@.subrange(pos as int, e2 as int) =~= ta + seq![','] + tb);
            assert(t@.subrange(pos as int, e2 as int) == pair_text((a, b)));
            if k == 0 {
                assert(t@.subrange(0, e2 as int) == pattern_text(v@));
            } else {
                assert(v@.drop_last() =~= prev);
                assert(t@.subrange(0, e2 as int) =~= t@.subrange(0, pos as int) + t@.subrange(pos as int, e2 as int));
                assert(t@.subrange(0, e2 as int) == pattern_text(v@));
            }
            assert forall|w: Seq<(u16, u16)>| #[trigger]
                pattern_text(w) == t@ implies w.subrange(0, k + 1) == v@ && (e2 == t@.len() <==> k + 1 == w.len())
                && (k + 1 < w.len() ==> e2 + 1 < t@.len() && t@[e2 as int] == ':') by {
                lemma_next_pair(t@, w, k, pos as int);
                lemma_numeral_unique(t@, pos as int, a, w[k].0);
                lemma_numeral_unique(t@, e1 + 1, b, w[k].1);
                assert(w.subrange(0, k) == prev);
                assert(w.subrange(0, k + 1) =~= v@);
            }
        }
        if e2 == t.len() {
            proof {
                assert(t@.subrange(0, e2 as int) =~= t@);
                assert forall|w: Seq<(u16, u16)>| #[trigger] pattern_text(w) == t@ <==> w == v@ by {
                    if pattern_text(w) == t@ {
                        assert(w.subrange(0, k + 1) == v@);
                        assert(w =~= v@);
                    }
                }
            }
            return Some(v);
        }
        if t[e2] != ':' || e2 + 1 == t.len() {
            proof {
                assert forall|w: Seq<(u16, u16)>| #[trigger] pattern_text(w) != t@ by {}
            }
            return None;
        }
        pos = e2 + 1;
        proof {
            assert(t@.subrange(0, pos as int) =~= t@.subrange(0, e2 as int) + seq![':']);
            assert forall|w: Seq<(u16, u16)>| #[trigger]
                pattern_text(w) == t@ implies w.len() > v@.len() && w.subrange(0, v@.len() as int) == v@ by {
            }
        }
    }
}

/// Relies on `str::chars` collected into a `Vec`: the characters of the string in order.
#[verifier::external_body]
pub(crate) fn chars_of(s: &str) -> (r: Vec<char>)
    ensures
        r@ == s@,
{
    s.chars().collect()
}

/// Reads a stored pattern back into its cells: the text of `w` gives `Some` of exactly `w`,
/// any other text gives `None`.
pub fn parse_pattern(text: &str) -> (r: Option<Vec<(u16, u16)>>)
    ensures
        forall|w: Seq<(u16, u16)>| #[trigger] pattern_text(w) == text@ <==> (r.is_some() && r.unwrap()@ == w),
{
    let chars = chars_of(text);
    parse_pattern_chars(&chars)
}

} // verus!
