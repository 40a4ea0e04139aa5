//! Character-level text helpers: decimal rendering, comparison, search and
//! ordering of strings, each stated over the character sequence of its input.
use vstd::prelude::*;

verus! {

/// The decimal digit character for `d` (meaningful for `d < 10`).
pub open spec fn digit_char(d: nat) -> char {
    if d == 0 {
        '0'
    } else if d == 1 {
        '1'
    } else if d == 2 {
        '2'
    } else if d == 3 {
        '3'
    } else if d == 4 {
        '4'
    } else if d == 5 {
        '5'
    } else if d == 6 {
        '6'
    } else if d == 7 {
        '7'
    } else if d == 8 {
        '8'
    } else {
        '9'
    }
}

/// The decimal rendering of a natural number, without leading zeros.
pub open spec fn decimal(n: nat) -> Seq<char>
    decreases n,
{
    if n < 10 {
        seq![digit_char(n)]
    } else {
        decimal(n / 10).push(digit_char(n % 10))
    }
}

/// The decimal rendering of an integer, with a leading `-` when negative.
pub open spec fn signed_decimal(n: int) -> Seq<char> {
    if n < 0 {
        seq!['-'] + decimal((-n) as nat)
    } else {
        decimal(n as nat)
    }
}

/// `s` left-padded with `'0'` to at least `width` characters.
pub open spec fn zero_pad(s: Seq<char>, width: nat) -> Seq<char> {
    if s.len() >= width {
        s
    } else {
        Seq::new((width - s.len()) as nat, |i: int| '0') + s
    }
}

/// Strict lexicographic order on character sequences, by code point; a proper
/// prefix comes first. On UTF-8 text this is the byte order that `str` uses.
pub open spec fn text_lt(a: Seq<char>, b: Seq<char>) -> bool
    decreases a.len(),
{
    if a.len() == 0 {
        b.len() > 0
    } else if b.len() == 0 {
        false
    } else if a[0] != b[0] {
        (a[0] as int) < (b[0] as int)
    } else {
        text_lt(a.drop_first(), b.drop_first())
    }
}

/// No element of `s` is strictly smaller than an element before it.
pub open spec fn is_sorted_text(s: Seq<Seq<char>>) -> bool {
    forall|p: int, q: int| 0 <= p < q < s.len() ==> !text_lt(#[trigger] s[q], #[trigger] s[p])
}

/// The character sequences of a list of strings.
pub open spec fn texts(v: Seq<String>) -> Seq<Seq<char>> {
    Seq::new(v.len(), |i: int| v[i]@)
}

/// The items of `list` with `sep` between each two neighbours.
pub open spec fn join_with(list: Seq<Seq<char>>, sep: Seq<char>) -> Seq<char>
    decreases list.len(),
{
    if list.len() == 0 {
        Seq::empty()
    } else if list.len() == 1 {
        list[0]
    } else {
        join_with(list.drop_last(), sep) + sep + list.last()
    }
}

/// Joining one more item appends the separator (unless the list was empty)
/// and the item.
pub proof fn lemma_join_push(list: Seq<Seq<char>>, item: Seq<char>, sep: Seq<char>)
    ensures
        join_with(list.push(item), sep) == if list.len() == 0 {
            item
        } else {
            join_with(list, sep) + sep + item
        },
{
    assert(list.push(item).drop_last() =~= list);
}

/// `text_lt` never holds both ways.
pub proof fn lemma_text_lt_asymmetric(a: Seq<char>, b: Seq<char>)
    ensures
        text_lt(a, b) ==> !text_lt(b, a),
    decreases a.len(),
{
    if a.len() > 0 && b.len() > 0 && a[0] == b[0] {
        lemma_text_lt_asymmetric(a.drop_first(), b.drop_first());
    }
}

/// `text_lt` is transitive.
pub proof fn lemma_text_lt_transitive(a: Seq<char>, b: Seq<char>, c: Seq<char>)
    requires
        text_lt(a, b),
        text_lt(b, c),
    ensures
        text_lt(a, c),
    decreases a.len(),
{
    if a.len() > 0 && b.len() > 0 && c.len() > 0 && a[0] == b[0] && b[0] == c[0] {
        lemma_text_lt_transitive(a.drop_first(), b.drop_first(), c.drop_first());
    }
}

/// Two sequences are equal or ordered one way or the other.
pub proof fn lemma_text_lt_total(a: Seq<char>, b: Seq<char>)
    ensures
        a == b || text_lt(a, b) || text_lt(b, a),
    decreases a.len(),
{
    if a.len() > 0 && b.len() > 0 && a[0] == b[0] {
        lemma_text_lt_total(a.drop_first(), b.drop_first());
        if a.drop_first() == b.drop_first() {
            assert(a =~= seq![a[0]] + a.drop_first());
            assert(b =~= seq![b[0]] + b.drop_first());
        }
    } else if a.len() > 0 && b.len() > 0 {
        assert(a[0] as int != b[0] as int);
    } else if a.len() == 0 && b.len() == 0 {
        assert(a =~= b);
    }
}

/// The one-character text of a decimal digit.
fn digit_text(d: u64) -> (s: &'static str)
    requires
        d < 10,
    ensures
        s@ == seq![digit_char(d as nat)],
{
    if d == 0 {
        proof { reveal_strlit("0"); }
        "0"
    } else if d == 1 {
        proof { reveal_strlit("1"); }
        "1"
    } else if d == 2 {
        proof { reveal_strlit("2"); }
        "2"
    } else if d == 3 {
        proof { reveal_strlit("3"); }
        "3"
    } else if d == 4 {
        proof { reveal_strlit("4"); }
        "4"
    } else if d == 5 {
        proof { reveal_strlit("5"); }
        "5"
    } else if d == 6 {
        proof { reveal_strlit("6"); }
        "6"
    } else if d == 7 {
        proof { reveal_strlit("7"); }
        "7"
    } else if d == 8 {
        proof { reveal_strlit("8"); }
        "8"
    } else {
        proof { reveal_strlit("9"); }
        "9"
    }
}

/// The decimal rendering of `n`.
pub fn u64_to_decimal(n: u64) -> (s: String)
    ensures
        s@ == decimal(n as nat),
{
    let mut res = String::from_str(digit_text(n % 10));
    let mut rest: u64 = n / 10;
    while rest > 0
        invariant
            decimal(n as nat) == (if rest == 0 {
                Seq::<char>::empty()
            } else {
                decimal(rest as nat)
            }) + res@,
        decreases rest,
    {
        let d: u64 = rest % 10;
        let next: u64 = rest / 10;
        proof {
            if rest < 10 {
                assert(decimal(rest as nat) =~= seq![digit_char(d as nat)]);
            } else {
                assert(decimal(rest as nat) =~= decimal(next as nat).push(digit_char(d as nat)));
                assert(decimal(next as nat) + (seq![digit_char(d as nat)] + res@)
                    =~= decimal(next as nat).push(digit_char(d as nat)) + res@);
            }
        }
        res = String::from_str(digit_text(d)).concat(res.as_str());
        rest = next;
    }
    assert(decimal(n as nat) =~= res@);
    res
}

/// The decimal rendering of `n`, with a leading `-` when negative.
pub fn i64_to_decimal(n: i64) -> (s: String)
    ensures
        s@ == signed_decimal(n as int),
{
    if n < 0 {
        let magnitude: u64 = ((-(n + 1)) as u64) + 1;
        let digits = u64_to_decimal(magnitude);
        proof { reveal_strlit("-"); }
        String::from_str("-").concat(digits.as_str())
    } else {
        u64_to_decimal(n as u64)
    }
}

/// The decimal rendering of `n`, left-padded with zeros to `width` characters.
pub fn zero_padded_decimal(n: u64, width: usize) -> (s: String)
    ensures
        s@ == zero_pad(decimal(n as nat), width as nat),
{
    let digits = u64_to_decimal(n);
    let len = digits.as_str().unicode_len();
    if len >= width {
        return digits;
    }
    let mut res = String::new();
    let mut i: usize = 0;
    proof { reveal_strlit("0"); }
    while i < width - len
        invariant
            len < width,
            i <= width - len,
            res@ =~= Seq::new(i as nat, |k: int| '0'),
        decreases width - len - i,
    {
        proof { reveal_strlit("0"); }
        res.append("0");
        i = i + 1;
    }
    res.append(digits.as_str());
    assert(res@ =~= zero_pad(decimal(n as nat), width as nat));
    res
}

/// Whether two texts hold the same characters.
pub fn same_text(a: &str, b: &str) -> (r: bool)
    ensures
        r == (a@ == b@),
{
    let la = a.unicode_len();
    let lb = b.unicode_len();
    if la != lb {
        return false;
    }
    let mut i: usize = 0;
    while i < la
        invariant
            la == a@.len(),
            lb == b@.len(),
            la == lb,
            i <= la,
            forall|k: int| 0 <= k < i ==> a@[k] == b@[k],
        decreases la - i,
    {
        if a.get_char(i) != b.get_char(i) {
            return false;
        }
        i = i + 1;
    }
    assert(a@ =~= b@);
    true
}

/// Whether `a` comes strictly before `b` in `text_lt` order.
pub fn text_less(a: &str, b: &str) -> (r: bool)
    ensures
        r == text_lt(a@, b@),
{
    let la = a.unicode_len();
    let lb = b.unicode_len();
    let mut i: usize = 0;
    assert(a@.skip(0) =~= a@);
    assert(b@.skip(0) =~= b@);
    while i < la && i < lb
        invariant
            la == a@.len(),
            lb == b@.len(),
            i <= la,
            i <= lb,
            text_lt(a@, b@) == text_lt(a@.skip(i as int), b@.skip(i as int)),
        decreases la - i,
    {
        let ca = a.get_char(i);
        let cb = b.get_char(i);
        assert(a@.skip(i as int)[0] == ca);
        assert(b@.skip(i as int)[0] == cb);
        if ca != cb {
            return (ca as u32) < (cb as u32);
        }
        assert(a@.skip(i as int).drop_first() =~= a@.skip(i + 1));
        assert(b@.skip(i as int).drop_first() =~= b@.skip(i + 1));
        i = i + 1;
    }
    i < lb
}

/// `a` comes no later than `b`.
pub open spec fn text_le(a: Seq<char>, b: Seq<char>) -> bool {
    !text_lt(b, a)
}

/// `names` in ascending order: the one sorted arrangement of its elements.
pub open spec fn sorted_texts(names: Seq<Seq<char>>) -> Seq<Seq<char>> {
    choose|s: Seq<Seq<char>>| is_sorted_text(s) && s.to_multiset() == names.to_multiset()
}

/// `text_le` is a total order.
proof fn lemma_text_le_total_ordering()
    ensures
        vstd::relations::total_ordering(|a: Seq<char>, b: Seq<char>| text_le(a, b)),
{
    let leq = |a: Seq<char>, b: Seq<char>| text_le(a, b);
    assert forall|x: Seq<char>| #[trigger] leq(x, x) by {
        lemma_text_lt_asymmetric(x, x);
    }
    assert forall|x: Seq<char>, y: Seq<char>| #[trigger] leq(x, y) && #[trigger] leq(y, x) implies x
        == y by {
        lemma_text_lt_total(x, y);
    }
    assert forall|x: Seq<char>, y: Seq<char>, z: Seq<char>| #[trigger] leq(x, y) && #[trigger] leq(
        y,
        z,
    ) implies leq(x, z) by {
        if text_lt(z, x) {
            lemma_text_lt_total(y, z);
            if text_lt(y, z) {
                lemma_text_lt_transitive(y, z, x);
            }
        }
    }
    assert forall|x: Seq<char>, y: Seq<char>| #[trigger] leq(x, y) || #[trigger] leq(y, x) by {
        lemma_text_lt_asymmetric(x, y);
    }
}

/// A sorted arrangement of `names` is the sorted arrangement.
pub proof fn lemma_sorted_texts_unique(s: Seq<Seq<char>>, names: Seq<Seq<char>>)
    requires
        is_sorted_text(s),
        s.to_multiset() == names.to_multiset(),
    ensures
        s == sorted_texts(names),
{
    let t = sorted_texts(names);
    let leq = |a: Seq<char>, b: Seq<char>| text_le(a, b);
    lemma_text_le_total_ordering();
    assert(vstd::relations::sorted_by(s, leq)) by {
        assert forall|i: int, j: int| 0 <= i < j < s.len() implies #[trigger] leq(s[i], s[j]) by {
            assert(!text_lt(s[j], s[i]));
        }
    }
    assert(vstd::relations::sorted_by(t, leq)) by {
        assert forall|i: int, j: int| 0 <= i < j < t.len() implies #[trigger] leq(t[i], t[j]) by {
            assert(!text_lt(t[j], t[i]));
        }
    }
    vstd::seq_lib::lemma_sorted_unique(s, t, leq);
}

/// The index of the first occurrence of `c` in `s`, if any.
pub fn find_char(s: &str, c: char) -> (r: Option<usize>)
    ensures
        match r {
            Some(i) => i < s@.len() && s@[i as int] == c && forall|k: int|
                0 <= k < i ==> s@[k] != c,
            None => forall|k: int| 0 <= k < s@.len() ==> s@[k] != c,
        },
{
    let n = s.unicode_len();
    let mut i: usize = 0;
    while i < n
        invariant
            n == s@.len(),
            i <= n,
            forall|k: int| 0 <= k < i ==> s@[k] != c,
        decreases n - i,
    {
        if s.get_char(i) == c {
            return Some(i);
        }
        i = i + 1;
    }
    None
}

/// Appends `s` to a list of strings.
pub fn push_text(v: &mut Vec<String>, s: String)
    ensures
        final(v).deep_view() == old(v).deep_view().push(s@),
{
    push_deep(v, s);
}

/// Appends `x` to a list, which extends the list's model by the model of `x`.
pub fn push_deep<T: DeepView>(v: &mut Vec<T>, x: T)
    ensures
        final(v).deep_view() == old(v).deep_view().push(x.deep_view()),
{
    let ghost before = v@;
    let ghost xv = x.deep_view();
    v.push(x);
    assert forall|k: int| 0 <= k < before.len() implies v@[k] == before[k] by {}
    assert(v.deep_view() =~= old(v).deep_view().push(xv));
}

/// The strings of `v` in ascending `text_lt` order (equal strings kept).
pub fn sort_texts(v: &Vec<String>) -> (out: Vec<String>)
    ensures
        is_sorted_text(texts(out@)),
        texts(out@).to_multiset() == texts(v@).to_multiset(),
        texts(out@) == sorted_texts(texts(v@)),
{
    let mut out: Vec<String> = Vec::new();
    let mut i: usize = 0;
    assert(texts(v@.take(0)) =~= texts(out@));
    while i < v.len()
        invariant
            i <= v.len(),
            is_sorted_text(texts(out@)),
            texts(out@).to_multiset() == texts(v@.take(i as int)).to_multiset(),
        decreases v.len() - i,
    {
        let name = v[i].clone();
        let mut j: usize = 0;
        while j < out.len() && !text_less(name.as_str(), out[j].as_str())
            invariant
                i < v.len(),
                j <= out.len(),
                name@ == v@[i as int]@,
                forall|k: int| 0 <= k < j ==> !text_lt(name@, #[trigger] out@[k]@),
            decreases out.len() - j,
        {
            j = j + 1;
        }
        let ghost before = out@;
        proof {
            assert forall|q: int| j <= q < before.len() implies !text_lt(
                #[trigger] before[q]@,
                name@,
            ) by {
                if text_lt(before[q]@, name@) {
                    lemma_text_lt_asymmetric(before[q]@, name@);
                    if q > j {
                        lemma_text_lt_transitive(before[q]@, name@, before[j as int]@);
                        assert(texts(before)[j as int] == before[j as int]@);
                        assert(texts(before)[q] == before[q]@);
                    }
                }
            }
        }
        out.insert(j, name);
        proof {
            assert(texts(out@) =~= texts(before).insert(j as int, v@[i as int]@));
            assert forall|p: int, q: int| 0 <= p < q < texts(out@).len() implies !text_lt(
                #[trigger] texts(out@)[q],
                #[trigger] texts(out@)[p],
            ) by {
                let t = texts(out@);
                let tb = texts(before);
                if q < j {
                    assert(t[q] == tb[q] && t[p] == tb[p]);
                } else if q == j {
                    assert(t[p] == before[p]@);
                } else if p == j {
                    assert(t[q] == before[q - 1]@);
                } else if p < j {
                    assert(t[q] == tb[q - 1] && t[p] == tb[p]);
                    if text_lt(t[q], t[p]) {
                        assert(!text_lt(before[q - 1]@, name@));
                        assert(!text_lt(name@, before[p]@));
                        lemma_text_lt_total(name@, before[p]@);
                        lemma_text_lt_total(before[q - 1]@, name@);
                        if name@ != before[p]@ {
                            lemma_text_lt_transitive(before[q - 1]@, before[p]@, name@);
                        }
                    }
                } else {
                    assert(t[q] == tb[q - 1] && t[p] == tb[p - 1]);
                }
            }
            assert(v@.take((i + 1) as int) =~= v@.take(i as int).push(v@[i as int]));
            assert(texts(v@.take((i + 1) as int)) =~= texts(v@.take(i as int)).push(
                v@[i as int]@,
            ));
            vstd::seq_lib::to_multiset_insert(texts(before), j as int, v@[i as int]@);
            vstd::seq_lib::to_multiset_build(texts(v@.take(i as int)), v@[i as int]@);
        }
        i = i + 1;
    }
    assert(v@.take(v.len() as int) =~= v@);
    proof {
        lemma_sorted_texts_unique(texts(out@), texts(v@));
    }
    out
}

} // verus!
