//! String helpers shared across the library: human-readable list joining,
//! substring search, and decimal rendering of counters.

use vstd::prelude::*;

verus! {

/// The view of a list of items joined for human reading: all but the last
/// separated by `", "`, the last attached with `" and "`.
pub open spec fn join_with_and_view(items: Seq<Seq<char>>) -> Seq<char>
    decreases items.len(),
{
    if items.len() == 0 {
        Seq::empty()
    } else if items.len() == 1 {
        items[0]
    } else if items.len() == 2 {
        items[0] + " and "@ + items[1]
    } else {
        items[0] + ", "@ + join_with_and_view(items.drop_first())
    }
}

fn join_with_and_from(items: &Vec<String>, i: usize) -> (r: String)
    requires
        i < items@.len(),
    ensures
        r@ == join_with_and_view(items.deep_view().skip(i as int)),
    decreases items@.len() - i,
{
    let ghost suffix = items.deep_view().skip(i as int);
    let n = items.len();
    if i + 1 == n {
        let r = items[i].clone();
        assert(suffix =~= seq![items@[i as int]@]);
        r
    } else if i + 2 == n {
        let mut r = items[i].clone();
        r.append(" and ");
        r.append(items[i + 1].as_str());
        assert(suffix[0] == items@[i as int]@);
        assert(suffix[1] == items@[i as int + 1]@);
        r
    } else {
        let mut r = items[i].clone();
        r.append(", ");
        let rest = join_with_and_from(items, i + 1);
        r.append(rest.as_str());
        assert(suffix.drop_first() =~= items.deep_view().skip(i as int + 1));
        assert(suffix[0] == items@[i as int]@);
        r
    }
}

/// Join items for human reading: `[]` gives `""`, `[a]` gives `a`,
/// `[a, b]` gives `a and b`, `[a, b, c]` gives `a, b and c`.
pub fn join_with_and(items: &Vec<String>) -> (r: String)
    ensures
        r@ == join_with_and_view(items.deep_view()),
{
    if items.len() == 0 {
        let r = String::new();
        assert(items.deep_view() =~= Seq::<Seq<char>>::empty());
        r
    } else {
        let r = join_with_and_from(items, 0);
        assert(items.deep_view().skip(0) =~= items.deep_view());
        r
    }
}

/// The view of a list of items joined with `", "`.
pub open spec fn join_with_commas_view(items: Seq<Seq<char>>) -> Seq<char>
    decreases items.len(),
{
    if items.len() == 0 {
        Seq::empty()
    } else if items.len() == 1 {
        items[0]
    } else {
        items[0] + ", "@ + join_with_commas_view(items.drop_first())
    }
}

fn join_with_commas_from(items: &Vec<String>, i: usize) -> (r: String)
    requires
        i < items@.len(),
    ensures
        r@ == join_with_commas_view(items.deep_view().skip(i as int)),
    decreases items@.len() - i,
{
    let ghost suffix = items.deep_view().skip(i as int);
    let n = items.len();
    if i + 1 == n {
        let r = items[i].clone();
        assert(suffix =~= seq![items@[i as int]@]);
        r
    } else {
        let mut r = items[i].clone();
        r.append(", ");
        let rest = join_with_commas_from(items, i + 1);
        r.append(rest.as_str());
        assert(suffix.drop_first() =~= items.deep_view().skip(i as int + 1));
        assert(suffix[0] == items@[i as int]@);
        r
    }
}

/// Join items with `", "`.
pub fn join_with_commas(items: &Vec<String>) -> (r: String)
    ensures
        r@ == join_with_commas_view(items.deep_view()),
{
    if items.len() == 0 {
        let r = String::new();
        assert(items.deep_view() =~= Seq::<Seq<char>>::empty());
        r
    } else {
        let r = join_with_commas_from(items, 0);
        assert(items.deep_view().skip(0) =~= items.deep_view());
        r
    }
}

/// Whether two string slices hold the same characters.
pub fn str_eq(a: &str, b: &str) -> (r: bool)
    ensures
        r == (a@ == b@),
{
    let alen = a.unicode_len();
    let blen = b.unicode_len();
    if alen != blen {
        return false;
    }
    let mut i: usize = 0;
    while i < alen
        invariant
            i <= alen,
            alen == a@.len(),
            alen == b@.len(),
            forall|k: int| 0 <= k < i ==> a@[k] == b@[k],
        decreases alen - i,
    {
        if a.get_char(i) != b.get_char(i) {
            return false;
        }
        i += 1;
    }
    assert(a@ =~= b@);
    true
}

/// Whether a list of strings holds `s`.
pub fn vec_contains_str(v: &Vec<String>, s: &str) -> (r: bool)
    ensures
        r == v.deep_view().contains(s@),
{
    let n = v.len();
    let mut i: usize = 0;
    while i < n
        invariant
            i <= n,
            n == v.len(),
            forall|k: int| 0 <= k < i ==> v.deep_view()[k] != s@,
        decreases n - i,
    {
        if str_eq(v[i].as_str(), s) {
            assert(v.deep_view()[i as int] == s@);
            return true;
        }
        assert(v.deep_view()[i as int] == v@[i as int]@);
        i += 1;
    }
    assert(forall|k: int| 0 <= k < v.deep_view().len() ==> v.deep_view()[k] != s@);
    false
}

/// Whether two lists of strings share an element.
pub open spec fn seqs_intersect(a: Seq<Seq<char>>, b: Seq<Seq<char>>) -> bool {
    exists|x: Seq<char>| a.contains(x) && b.contains(x)
}

/// Whether two lists of strings share an element.
pub fn vecs_intersect(a: &Vec<String>, b: &Vec<String>) -> (r: bool)
    ensures
        r == seqs_intersect(a.deep_view(), b.deep_view()),
{
    let n = a.len();
    let mut i: usize = 0;
    while i < n
        invariant
            i <= n,
            n == a.len(),
            forall|k: int| 0 <= k < i ==> !b.deep_view().contains(#[trigger] a.deep_view()[k]),
        decreases n - i,
    {
        if vec_contains_str(b, a[i].as_str()) {
            assert(a.deep_view()[i as int] == a@[i as int]@);
            assert(a.deep_view().contains(a.deep_view()[i as int]));
            return true;
        }
        assert(a.deep_view()[i as int] == a@[i as int]@);
        i += 1;
    }
    assert forall|x: Seq<char>| a.deep_view().contains(x) implies !b.deep_view().contains(x) by {
        let k = choose|k: int| 0 <= k < a.deep_view().len() && a.deep_view()[k] == x;
        assert(!b.deep_view().contains(a.deep_view()[k]));
    }
    false
}

/// `needle` occurs in `hay` starting at character position `i`.
pub open spec fn substring_at(hay: Seq<char>, needle: Seq<char>, i: int) -> bool {
    &&& 0 <= i
    &&& i + needle.len() <= hay.len()
    &&& hay.subrange(i, i + needle.len()) == needle
}

/// `needle` occurs somewhere in `hay`.
pub open spec fn has_substring(hay: Seq<char>, needle: Seq<char>) -> bool {
    exists|i: int| substring_at(hay, needle, i)
}

/// `prefix` is a prefix of `s`.
pub open spec fn has_prefix(s: Seq<char>, prefix: Seq<char>) -> bool {
    substring_at(s, prefix, 0)
}

/// Whether `s` starts with `prefix`.
pub fn str_starts_with(s: &str, prefix: &str) -> (r: bool)
    ensures
        r == has_prefix(s@, prefix@),
{
    let slen = s.unicode_len();
    let plen = prefix.unicode_len();
    if plen > slen {
        return false;
    }
    substring_matches_at(s, prefix, 0)
}

fn substring_matches_at(hay: &str, needle: &str, i: usize) -> (r: bool)
    requires
        i + needle@.len() <= hay@.len(),
    ensures
        r == substring_at(hay@, needle@, i as int),
{
    let hlen = hay.unicode_len();
    let nlen = needle.unicode_len();
    let mut j: usize = 0;
    while j < nlen
        invariant
            j <= nlen,
            hlen == hay@.len(),
            nlen == needle@.len(),
            i + nlen <= hlen,
            forall|k: int| 0 <= k < j ==> hay@[i + k] == needle@[k],
        decreases nlen - j,
    {
        if hay.get_char(i + j) != needle.get_char(j) {
            assert(hay@.subrange(i as int, i + needle@.len())[j as int] != needle@[j as int]);
            return false;
        }
        j += 1;
    }
    assert(hay@.subrange(i as int, i + needle@.len()) =~= needle@);
    true
}

/// Whether `needle` occurs in `hay` as a contiguous run of characters.
pub fn string_contains(hay: &str, needle: &str) -> (r: bool)
    ensures
        r == has_substring(hay@, needle@),
{
    let hlen = hay.unicode_len();
    let nlen = needle.unicode_len();
    if nlen > hlen {
        assert(forall|i: int| !substring_at(hay@, needle@, i));
        return false;
    }
    if nlen == 0 {
        assert(hay@.subrange(0, 0) =~= needle@);
        assert(substring_at(hay@, needle@, 0));
        return true;
    }
    let mut i: usize = 0;
    while i <= hlen - nlen
        invariant
            1 <= nlen <= hlen,
            hlen == hay@.len(),
            nlen == needle@.len(),
            i <= hlen - nlen + 1,
            forall|k: int| 0 <= k < i ==> !substring_at(hay@, needle@, k),
        decreases hlen - nlen - i + 1,
    {
        if substring_matches_at(hay, needle, i) {
            return true;
        }
        i += 1;
    }
    assert(forall|k: int| substring_at(hay@, needle@, k) ==> 0 <= k <= hlen - nlen);
    false
}

/// The character for one decimal digit.
pub open spec fn digit_char(d: nat) -> char {
    ((48 + d) as u8) as char
}

/// The decimal rendering of a number, most significant digit first.
pub open spec fn dec_digits(n: nat) -> Seq<char>
    decreases n,
{
    if n < 10 {
        seq![digit_char(n)]
    } else {
        dec_digits(n / 10) + seq![digit_char(n % 10)]
    }
}

fn append_digit(s: &mut String, d: u64)
    requires
        d < 10,
    ensures
        final(s)@ == old(s)@ + seq![digit_char(d as nat)],
{
    proof {
        reveal_strlit("0");
        reveal_strlit("1");
        reveal_strlit("2");
        reveal_strlit("3");
        reveal_strlit("4");
        reveal_strlit("5");
        reveal_strlit("6");
        reveal_strlit("7");
        reveal_strlit("8");
        reveal_strlit("9");
    }
    match d {
        0 => {
            s.append("0");
            assert("0"@ =~= seq![digit_char(0)]);
        }
        1 => {
            s.append("1");
            assert("1"@ =~= seq![digit_char(1)]);
        }
        2 => {
            s.append("2");
            assert("2"@ =~= seq![digit_char(2)]);
        }
        3 => {
            s.append("3");
            assert("3"@ =~= seq![digit_char(3)]);
        }
        4 => {
            s.append("4");
            assert("4"@ =~= seq![digit_char(4)]);
        }
        5 => {
            s.append("5");
            assert("5"@ =~= seq![digit_char(5)]);
        }
        6 => {
            s.append("6");
            assert("6"@ =~= seq![digit_char(6)]);
        }
        7 => {
            s.append("7");
            assert("7"@ =~= seq![digit_char(7)]);
        }
        8 => {
            s.append("8");
            assert("8"@ =~= seq![digit_char(8)]);
        }
        _ => {
            s.append("9");
            assert("9"@ =~= seq![digit_char(9)]);
        }
    }
}

fn append_decimal(s: &mut String, n: u64)
    ensures
        final(s)@ == old(s)@ + dec_digits(n as nat),
    decreases n,
{
    if n < 10 {
        append_digit(s, n);
    } else {
        append_decimal(s, n / 10);
        append_digit(s, n % 10);
        assert(old(s)@ + dec_digits((n / 10) as nat) + seq![digit_char((n % 10) as nat)] =~= old(
            s,
        )@ + dec_digits(n as nat));
    }
}

/// The decimal rendering of a counter as a `String`.
pub fn u64_to_decimal(n: u64) -> (r: String)
    ensures
        r@ == dec_digits(n as nat),
{
    let mut s = String::new();
    append_decimal(&mut s, n);
    assert(Seq::<char>::empty() + dec_digits(n as nat) =~= dec_digits(n as nat));
    s
}

} // verus!
