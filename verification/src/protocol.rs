//! The remote-helper line protocol's input side: reading a line from the
//! host VCS, splitting it into tokens, and gathering a batch of fetch lines.

use vstd::prelude::*;

use crate::strings::str_eq;

verus! {

/// The handle the host VCS drives the helper through.
#[verifier::external_type_specification]
#[verifier::external_body]
pub struct ExStdin(std::io::Stdin);

/// Relies on `std::io::Stdin::read_line`: it appends one line of input to
/// the buffer and answers how many bytes it appended; zero bytes means the
/// stream ended and the buffer is untouched. A read error is carried as its
/// message.
#[verifier::external_body]
fn stdin_read_line(stdin: &std::io::Stdin, line: &mut String) -> (r: Result<usize, String>)
    ensures
        r matches Ok(n) && n == 0 ==> final(line)@ == old(line)@,
        r matches Ok(n) && n > 0 ==> final(line)@.len() >= old(line)@.len(),
{
    match stdin.read_line(line) {
        Ok(n) => Ok(n),
        Err(e) => Err(e.to_string()),
    }
}

/// A whitespace character a protocol line is trimmed of at its ends.
pub open spec fn is_line_space(c: char) -> bool {
    c == ' ' || c == '\n' || c == '\r' || c == '\t'
}

/// The line with its leading whitespace removed.
pub open spec fn trim_front(s: Seq<char>) -> Seq<char>
    decreases s.len(),
{
    if s.len() > 0 && is_line_space(s[0]) {
        trim_front(s.drop_first())
    } else {
        s
    }
}

/// The line with its trailing whitespace removed.
pub open spec fn trim_back(s: Seq<char>) -> Seq<char>
    decreases s.len(),
{
    if s.len() > 0 && is_line_space(s.last()) {
        trim_back(s.drop_last())
    } else {
        s
    }
}

/// The line with whitespace removed at both ends.
pub open spec fn trimmed(s: Seq<char>) -> Seq<char> {
    trim_back(trim_front(s))
}

/// The longest leading run of non-space characters.
pub open spec fn leading_token(s: Seq<char>) -> Seq<char>
    decreases s.len(),
{
    if s.len() == 0 || s[0] == ' ' {
        Seq::empty()
    } else {
        seq![s[0]] + leading_token(s.drop_first())
    }
}

pub(crate) proof fn lemma_leading_token_len(s: Seq<char>)
    requires
        s.len() > 0,
        s[0] != ' ',
    ensures
        1 <= leading_token(s).len() <= s.len(),
    decreases s.len(),
{
    if s.len() > 1 && s.drop_first()[0] != ' ' {
        lemma_leading_token_len(s.drop_first());
    } else {
        assert(leading_token(s.drop_first()) =~= Seq::<char>::empty());
    }
}

/// The non-empty space-separated fields of a string.
pub open spec fn space_tokens(s: Seq<char>) -> Seq<Seq<char>>
    decreases s.len(),
    via space_tokens_decreases
{
    if s.len() == 0 {
        Seq::empty()
    } else if s[0] == ' ' {
        space_tokens(s.drop_first())
    } else {
        let t = leading_token(s);
        seq![t] + space_tokens(s.skip(t.len() as int))
    }
}

#[via_fn]
proof fn space_tokens_decreases(s: Seq<char>) {
    if s.len() > 0 && s[0] != ' ' {
        lemma_leading_token_len(s);
    }
}

/// The tokens of a protocol line: trim both ends, split on spaces, drop the
/// empty fields.
pub open spec fn tokens_of(s: Seq<char>) -> Seq<Seq<char>> {
    space_tokens(trimmed(s))
}

proof fn lemma_leading_token_range(s: Seq<char>, j: int)
    requires
        0 <= j <= s.len(),
        forall|k: int| 0 <= k < j ==> s[k] != ' ',
        j == s.len() || s[j] == ' ',
    ensures
        leading_token(s) == s.subrange(0, j),
    decreases j,
{
    if j == 0 {
        assert(s.subrange(0, 0) =~= Seq::<char>::empty());
    } else {
        assert(s[0] != ' ');
        lemma_leading_token_range(s.drop_first(), j - 1);
        assert(s.drop_first().subrange(0, j - 1) =~= s.subrange(1, j));
        assert(seq![s[0]] + s.subrange(1, j) =~= s.subrange(0, j));
    }
}

proof fn lemma_trim_front_range(s: Seq<char>, a: int)
    requires
        0 <= a <= s.len(),
        forall|k: int| 0 <= k < a ==> is_line_space(s[k]),
        a == s.len() || !is_line_space(s[a]),
    ensures
        trim_front(s) == s.skip(a),
    decreases a,
{
    if a == 0 {
        assert(s.skip(0) =~= s);
    } else {
        assert(is_line_space(s[0]));
        lemma_trim_front_range(s.drop_first(), a - 1);
        assert(s.drop_first().skip(a - 1) =~= s.skip(a));
    }
}

proof fn lemma_trim_back_range(s: Seq<char>, b: int)
    requires
        0 <= b <= s.len(),
        forall|k: int| b <= k < s.len() ==> is_line_space(s[k]),
        b == 0 || !is_line_space(s[b - 1]),
    ensures
        trim_back(s) == s.take(b),
    decreases s.len() - b,
{
    if b == s.len() {
        if s.len() > 0 && is_line_space(s.last()) {
            assert(!is_line_space(s[b - 1]));
        }
        assert(s.take(b) =~= s);
    } else {
        assert(is_line_space(s.last()));
        lemma_trim_back_range(s.drop_last(), b);
        assert(s.drop_last().take(b) =~= s.take(b));
    }
}

fn tokenize_from(line: &str, i: usize, len: usize) -> (r: Vec<String>)
    requires
        i <= len,
        len == line@.len(),
    ensures
        r.deep_view() == space_tokens(line@.skip(i as int)),
    decreases len - i,
{
    let ghost suffix = line@.skip(i as int);
    if i == len {
        let r: Vec<String> = Vec::new();
        assert(suffix =~= Seq::<char>::empty());
        assert(r.deep_view() =~= Seq::<Seq<char>>::empty());
        return r;
    }
    assert(suffix[0] == line@[i as int]);
    let c = line.get_char(i);
    if c == ' ' {
        let r = tokenize_from(line, i + 1, len);
        assert(suffix.drop_first() =~= line@.skip(i + 1));
        r
    } else {
        let mut j: usize = i;
        while j < len && line.get_char(j) != ' '
            invariant
                i <= j <= len,
                len == line@.len(),
                forall|k: int| i <= k < j ==> line@[k] != ' ',
            decreases len - j,
        {
            j += 1;
        }
        proof {
            assert forall|k: int| 0 <= k < j - i implies suffix[k] != ' ' by {
                assert(suffix[k] == line@[i + k]);
            }
            if j < len {
                assert(line@[j as int] == ' ');
                assert(suffix[j - i] == line@[j as int]);
            }
            lemma_leading_token_range(suffix, j - i);
        }
        let token_slice = line.substring_char(i, j);
        let mut token = String::new();
        token.append(token_slice);
        assert(token@ =~= suffix.subrange(0, j - i));
        let rest = tokenize_from(line, j, len);
        let ghost rest_view = rest.deep_view();
        let mut r: Vec<String> = Vec::new();
        r.push(token);
        let mut rest = rest;
        let nrest = rest.len();
        let mut k: usize = 0;
        while k < nrest
            invariant
                k <= nrest,
                nrest == rest@.len(),
                rest.deep_view() == rest_view,
                r@.len() == 1 + k,
                r.deep_view()[0] == suffix.subrange(0, j - i),
                forall|t: int| 1 <= t < r@.len() ==> #[trigger] r.deep_view()[t] == rest_view[t
                    - 1],
            decreases nrest - k,
        {
            let ghost prev = r.deep_view();
            let x = rest[k].clone();
            r.push(x);
            proof {
                assert(rest_view[k as int] == rest@[k as int]@);
                assert forall|t: int| 1 <= t < r@.len() implies #[trigger] r.deep_view()[t]
                    == rest_view[t - 1] by {
                    if t < 1 + k {
                        assert(r.deep_view()[t] == prev[t]);
                    } else {
                        assert(r.deep_view()[t] == x@);
                    }
                }
                assert(r.deep_view()[0] == prev[0]);
            }
            k += 1;
        }
        proof {
            assert(suffix.skip(j - i) =~= line@.skip(j as int));
            assert(leading_token(suffix) == suffix.subrange(0, j - i));
            assert(space_tokens(suffix.skip(j - i)) == rest_view);
            let rhs = seq![leading_token(suffix)] + rest_view;
            assert forall|m: int| 0 <= m < r.deep_view().len() implies r.deep_view()[m]
                == rhs[m] by {
                if m == 0 {
                    assert(r.deep_view()[0] == suffix.subrange(0, j - i));
                } else {
                    assert(r.deep_view()[m] == rest_view[m - 1]);
                    assert(rhs[m] == rest_view[m - 1]);
                }
            }
            assert(r.deep_view() =~= rhs);
            assert(r.deep_view() =~= seq![leading_token(suffix)] + space_tokens(
                suffix.skip(leading_token(suffix).len() as int),
            ));
        }
        r
    }
}

fn is_line_space_char(c: char) -> (r: bool)
    ensures
        r == is_line_space(c),
{
    c == ' ' || c == '\n' || c == '\r' || c == '\t'
}

/// The tokens of one protocol line: the non-empty space-separated fields of
/// the trimmed line.
pub fn tokenize_line(line: &str) -> (r: Vec<String>)
    ensures
        r.deep_view() == tokens_of(line@),
{
    let len = line.unicode_len();
    let mut a: usize = 0;
    while a < len && is_line_space_char(line.get_char(a))
        invariant
            a <= len,
            len == line@.len(),
            forall|k: int| 0 <= k < a ==> is_line_space(line@[k]),
        decreases len - a,
    {
        a += 1;
    }
    let mut b: usize = len;
    while b > a && is_line_space_char(line.get_char(b - 1))
        invariant
            a <= b <= len,
            len == line@.len(),
            a == len || !is_line_space(line@[a as int]),
            forall|k: int| 0 <= k < a ==> is_line_space(line@[k]),
            forall|k: int| b <= k < len ==> is_line_space(line@[k]),
        decreases b,
    {
        b -= 1;
    }
    proof {
        lemma_trim_front_range(line@, a as int);
        assert forall|k: int| b - a <= k < line@.skip(a as int).len() implies is_line_space(
            line@.skip(a as int)[k],
        ) by {
            assert(line@.skip(a as int)[k] == line@[a + k]);
        }
        if b > a {
            assert(line@.skip(a as int)[b - a - 1] == line@[b - 1]);
        }
        lemma_trim_back_range(line@.skip(a as int), b - a);
        assert(line@.skip(a as int).take(b - a) =~= line@.subrange(a as int, b as int));
    }
    let core = line.substring_char(a, b);
    let core_len = core.unicode_len();
    let r = tokenize_from(core, 0, core_len);
    assert(core@.skip(0) =~= core@);
    assert(core@ == trimmed(line@));
    r
}

/// Read one line from the host VCS and split it into tokens; the end of the
/// stream reads as no tokens. Fails with the read error's message.
pub fn read_line(stdin: &std::io::Stdin, line: &mut String) -> (r: Result<Vec<String>, String>)
    ensures
        r matches Ok(tokens) ==> tokens.deep_view() == tokens_of(final(line)@),
{
    *line = String::new();
    let n = match stdin_read_line(stdin, line) {
        Ok(n) => n,
        Err(e) => {
            return Err(e);
        },
    };
    if n == 0 {
        proof {
            assert(tokens_of(final(line)@) =~= Seq::<Seq<char>>::empty());
        }
        let r: Vec<String> = Vec::new();
        assert(r.deep_view() =~= Seq::<Seq<char>>::empty());
        return Ok(r);
    }
    Ok(tokenize_line(line.as_str()))
}

/// One requested reference of a fetch batch.
pub struct FetchItem {
    /// The reference string the host asked for.
    pub refstr: String,
    /// The object id it expects there.
    pub oid: String,
}

/// The batch holds an entry for this reference.
pub open spec fn batch_has_ref(batch: Seq<FetchItem>, refstr: Seq<char>) -> bool {
    exists|i: int| 0 <= i < batch.len() && batch[i].refstr@ == refstr
}

/// References in the batch are unique.
pub open spec fn batch_refs_unique(batch: Seq<FetchItem>) -> bool {
    forall|i: int, j: int| 0 <= i < j < batch.len() ==> batch[i].refstr@ != batch[j].refstr@
}

/// The batch pairs this reference with this object id.
pub open spec fn batch_has_pair(batch: Seq<FetchItem>, refstr: Seq<char>, oid: Seq<char>) -> bool {
    exists|i: int| 0 <= i < batch.len() && batch[i].refstr@ == refstr && batch[i].oid@ == oid
}

fn batch_insert(batch: &mut Vec<FetchItem>, refstr: String, oid: String)
    requires
        batch_refs_unique(old(batch)@),
    ensures
        batch_refs_unique(final(batch)@),
        final(batch)@.len() >= 1,
        batch_has_pair(final(batch)@, refstr@, oid@),
        forall|x: Seq<char>| batch_has_ref(old(batch)@, x) ==> batch_has_ref(final(batch)@, x),
        forall|p: int|
            0 <= p < final(batch)@.len() ==> (exists|q: int|
                0 <= q < old(batch)@.len() && old(batch)@[q].refstr@ == (
                #[trigger] final(batch)@[p]).refstr@ && old(batch)@[q].oid@
                    == final(batch)@[p].oid@) || (final(batch)@[p].refstr@ == refstr@
                && final(batch)@[p].oid@ == oid@),
        forall|r2: Seq<char>, o2: Seq<char>|
            batch_has_pair(old(batch)@, r2, o2) && r2 != refstr@ ==> #[trigger] batch_has_pair(
                final(batch)@,
                r2,
                o2,
            ),
{
    let ghost rv = refstr@;
    let ghost ov = oid@;
    let n = batch.len();
    let mut i: usize = 0;
    while i < n
        invariant
            i <= n,
            n == batch@.len(),
            batch@ == old(batch)@,
            batch_refs_unique(batch@),
            refstr@ == rv,
            oid@ == ov,
            forall|k: int| 0 <= k < i ==> batch@[k].refstr@ != rv,
        decreases n - i,
    {
        if str_eq(batch[i].refstr.as_str(), refstr.as_str()) {
            let ghost prev = batch@;
            batch.set(i, FetchItem { refstr, oid });
            proof {
                assert(batch@[i as int].refstr@ == rv && batch@[i as int].oid@ == ov);
                assert(prev[i as int].refstr@ == rv);
                assert forall|p: int, q: int|
                    0 <= p < q < batch@.len() implies batch@[p].refstr@ != batch@[q].refstr@ by {
                    if p != i {
                        assert(batch@[p] == prev[p]);
                    }
                    if q != i {
                        assert(batch@[q] == prev[q]);
                    }
                }
                assert(batch_has_pair(batch@, rv, ov));
                assert forall|x: Seq<char>| batch_has_ref(prev, x) implies batch_has_ref(
                    batch@,
                    x,
                ) by {
                    let ii = choose|ii: int| 0 <= ii < prev.len() && prev[ii].refstr@ == x;
                    if ii != i {
                        assert(batch@[ii] == prev[ii]);
                        assert(batch@[ii].refstr@ == x);
                    } else {
                        assert(batch@[i as int].refstr@ == x);
                    }
                }
                assert forall|p: int|
                    0 <= p < batch@.len() implies (exists|q: int|
                    0 <= q < prev.len() && prev[q].refstr@ == (#[trigger] batch@[p]).refstr@
                        && prev[q].oid@ == batch@[p].oid@) || (batch@[p].refstr@ == rv
                    && batch@[p].oid@ == ov) by {
                    if p != i {
                        assert(batch@[p] == prev[p]);
                    }
                }
                assert forall|r2: Seq<char>, o2: Seq<char>|
                    batch_has_pair(prev, r2, o2) && r2 != rv implies #[trigger] batch_has_pair(
                    batch@,
                    r2,
                    o2,
                ) by {
                    let q = choose|q: int|
                        0 <= q < prev.len() && prev[q].refstr@ == r2 && prev[q].oid@ == o2;
                    assert(q != i);
                    assert(batch@[q] == prev[q]);
                }
            }
            return ;
        }
        i += 1;
    }
    let ghost prev = batch@;
    batch.push(FetchItem { refstr, oid });
    proof {
        assert(batch@[prev.len() as int].refstr@ == rv);
        assert(batch@[prev.len() as int].oid@ == ov);
        assert forall|x: Seq<char>| batch_has_ref(prev, x) implies batch_has_ref(batch@, x) by {
            let ii = choose|ii: int| 0 <= ii < prev.len() && prev[ii].refstr@ == x;
            assert(batch@[ii] == prev[ii]);
            assert(batch@[ii].refstr@ == x);
        }
        assert forall|p: int, q: int|
            0 <= p < q < batch@.len() implies batch@[p].refstr@ != batch@[q].refstr@ by {
            if q < prev.len() {
                assert(batch@[p] == prev[p] && batch@[q] == prev[q]);
            } else {
                assert(batch@[q].refstr@ == rv);
                assert(batch@[p] == prev[p]);
            }
        }
        assert forall|p: int|
            0 <= p < batch@.len() implies (exists|q: int|
            0 <= q < prev.len() && prev[q].refstr@ == (#[trigger] batch@[p]).refstr@
                && prev[q].oid@ == batch@[p].oid@) || (batch@[p].refstr@ == rv && batch@[p].oid@
            == ov) by {
            if p < prev.len() {
                assert(batch@[p] == prev[p]);
            }
        }
        assert forall|r2: Seq<char>, o2: Seq<char>|
            batch_has_pair(prev, r2, o2) && r2 != rv implies #[trigger] batch_has_pair(
            batch@,
            r2,
            o2,
        ) by {
            let q = choose|q: int|
                0 <= q < prev.len() && prev[q].refstr@ == r2 && prev[q].oid@ == o2;
            assert(batch@[q] == prev[q]);
        }
    }
}

/// A protocol line a fetch batch accepts: blank, or `fetch <oid> <refstr>`.
pub open spec fn batch_line_ok(tokens: Seq<Seq<char>>) -> bool {
    tokens.len() == 0 || (tokens.len() == 3 && tokens[0] == "fetch"@)
}

/// No blank line precedes position `i`: the batch is still being read there.
pub open spec fn before_batch_end(lines: Seq<Seq<char>>, i: int) -> bool {
    forall|k: int| 0 <= k < i ==> tokens_of(#[trigger] lines[k]).len() != 0
}

/// The line at `i` is a fetch line.
pub open spec fn is_fetch_line(lines: Seq<Seq<char>>, i: int) -> bool {
    tokens_of(lines[i]).len() == 3 && tokens_of(lines[i])[0] == "fetch"@
}

/// Gather one fetch batch: starting from the first requested reference, take
/// further `fetch <oid> <refstr>` lines until a blank line or the end of
/// what was read, later lines for the same reference replacing earlier
/// ones. Any other line is a protocol violation.
pub fn get_oids_from_fetch_batch(
    lines: &Vec<String>,
    initial_oid: &str,
    initial_refstr: &str,
) -> (r: Result<Vec<FetchItem>, String>)
    ensures
        match r {
            Ok(batch) => {
                &&& batch_refs_unique(batch@)
                &&& batch@.len() >= 1
                &&& batch_has_ref(batch@, initial_refstr@)
                &&& forall|i: int|
                    0 <= i < lines.deep_view().len() && (forall|k: int|
                        0 <= k < i ==> tokens_of(#[trigger] lines.deep_view()[k]).len() != 0)
                        && tokens_of(#[trigger] lines.deep_view()[i]).len() == 3 && tokens_of(
                        lines.deep_view()[i],
                    )[0] == "fetch"@ ==> batch_has_ref(batch@, tokens_of(lines.deep_view()[i])[2])
                // Every line the batch read is well formed.
                &&& forall|i: int|
                    0 <= i < lines.deep_view().len() && before_batch_end(lines.deep_view(), i)
                        ==> batch_line_ok(tokens_of(#[trigger] lines.deep_view()[i]))
                // The last line naming a reference decides its object id.
                &&& forall|i: int|
                    #![trigger lines.deep_view()[i]]
                    0 <= i < lines.deep_view().len() && before_batch_end(lines.deep_view(), i)
                        && is_fetch_line(lines.deep_view(), i) && (forall|i2: int|
                        i < i2 < lines.deep_view().len() && before_batch_end(
                            lines.deep_view(),
                            i2,
                        ) && is_fetch_line(lines.deep_view(), i2) ==> tokens_of(
                            #[trigger] lines.deep_view()[i2],
                        )[2] != tokens_of(lines.deep_view()[i])[2]) ==> batch_has_pair(
                        batch@,
                        tokens_of(lines.deep_view()[i])[2],
                        tokens_of(lines.deep_view()[i])[1],
                    )
                // The first requested reference keeps its object id unless a
                // line overrode it.
                &&& (forall|i: int|
                    #![trigger lines.deep_view()[i]]
                    0 <= i < lines.deep_view().len() && before_batch_end(lines.deep_view(), i)
                        && is_fetch_line(lines.deep_view(), i) ==> tokens_of(
                        lines.deep_view()[i],
                    )[2] != initial_refstr@) ==> batch_has_pair(
                    batch@,
                    initial_refstr@,
                    initial_oid@,
                )
                &&& forall|k: int|
                    0 <= k < batch@.len() ==> ((#[trigger] batch@[k].refstr@) == initial_refstr@
                        && batch@[k].oid@ == initial_oid@) || exists|i: int|
                        0 <= i < lines.deep_view().len() && tokens_of(#[trigger] lines.deep_view()[i])
                            =~= seq!["fetch"@, batch@[k].oid@, batch@[k].refstr@]
            },
            Err(_) => exists|i: int|
                0 <= i < lines.deep_view().len() && !batch_line_ok(
                    tokens_of(#[trigger] lines.deep_view()[i]),
                ),
        },
        (forall|i: int|
            0 <= i < lines.deep_view().len() ==> batch_line_ok(
                tokens_of(#[trigger] lines.deep_view()[i]),
            )) ==> r is Ok,
{
    let mut batch: Vec<FetchItem> = Vec::new();
    let mut refstr0 = String::new();
    refstr0.append(initial_refstr);
    let mut oid0 = String::new();
    oid0.append(initial_oid);
    batch_insert(&mut batch, refstr0, oid0);
    proof {
        reveal_strlit("fetch");
        assert forall|k: int|
            0 <= k < batch@.len() implies ((#[trigger] batch@[k].refstr@) == initial_refstr@
            && batch@[k].oid@ == initial_oid@) || exists|j: int|
            0 <= j < lines.deep_view().len() && tokens_of(#[trigger] lines.deep_view()[j]) =~= seq![
            "fetch"@,
            batch@[k].oid@,
            batch@[k].refstr@,
        ] by {}
    }
    let n = lines.len();
    let mut i: usize = 0;
    while i < n
        invariant
            i <= n,
            n == lines@.len(),
            batch_refs_unique(batch@),
            batch_has_ref(batch@, initial_refstr@),
            batch@.len() >= 1,
            forall|k: int| 0 <= k < i ==> tokens_of(#[trigger] lines.deep_view()[k]).len() != 0,
            forall|k: int|
                #![trigger lines.deep_view()[k]]
                0 <= k < i ==> is_fetch_line(lines.deep_view(), k),
            forall|k: int|
                0 <= k < i && tokens_of(#[trigger] lines.deep_view()[k]).len() == 3 && tokens_of(
                    lines.deep_view()[k],
                )[0] == "fetch"@ ==> batch_has_ref(batch@, tokens_of(lines.deep_view()[k])[2]),
            forall|k: int|
                #![trigger lines.deep_view()[k]]
                0 <= k < i && (forall|k2: int|
                    k < k2 < i ==> tokens_of(#[trigger] lines.deep_view()[k2])[2] != tokens_of(
                        lines.deep_view()[k],
                    )[2]) ==> batch_has_pair(
                    batch@,
                    tokens_of(lines.deep_view()[k])[2],
                    tokens_of(lines.deep_view()[k])[1],
                ),
            (forall|k: int|
                #![trigger lines.deep_view()[k]]
                0 <= k < i ==> tokens_of(lines.deep_view()[k])[2] != initial_refstr@)
                ==> batch_has_pair(batch@, initial_refstr@, initial_oid@),
            forall|k: int|
                0 <= k < batch@.len() ==> ((#[trigger] batch@[k].refstr@) == initial_refstr@
                    && batch@[k].oid@ == initial_oid@) || exists|j: int|
                    0 <= j < lines.deep_view().len() && tokens_of(#[trigger] lines.deep_view()[j])
                        =~= seq!["fetch"@, batch@[k].oid@, batch@[k].refstr@],
        decreases n - i,
    {
        assert(lines.deep_view()[i as int] == lines@[i as int]@);
        let tokens = tokenize_line(lines[i].as_str());
        if tokens.len() == 0 {
            proof {
                assert forall|x: int|
                    0 <= x < lines.deep_view().len() && (forall|k: int|
                        0 <= k < x ==> tokens_of(#[trigger] lines.deep_view()[k]).len() != 0)
                        && tokens_of(#[trigger] lines.deep_view()[x]).len() == 3 && tokens_of(
                        lines.deep_view()[x],
                    )[0] == "fetch"@ implies batch_has_ref(
                    batch@,
                    tokens_of(lines.deep_view()[x])[2],
                ) by {
                    if x > i {
                        assert(tokens_of(lines.deep_view()[i as int]).len() == 0);
                    }
                }
                assert forall|x: int|
                    0 <= x < lines.deep_view().len() && before_batch_end(lines.deep_view(), x)
                    implies batch_line_ok(tokens_of(#[trigger] lines.deep_view()[x])) by {
                    if x > i {
                        assert(tokens_of(lines.deep_view()[i as int]).len() == 0);
                    } else if x == i {
                        assert(tokens_of(lines.deep_view()[i as int]).len() == 0);
                    } else {
                        assert(is_fetch_line(lines.deep_view(), x));
                    }
                }
                assert forall|x: int|
                    #![trigger lines.deep_view()[x]]
                    0 <= x < lines.deep_view().len() && before_batch_end(lines.deep_view(), x)
                        && is_fetch_line(lines.deep_view(), x) && (forall|i2: int|
                        x < i2 < lines.deep_view().len() && before_batch_end(
                            lines.deep_view(),
                            i2,
                        ) && is_fetch_line(lines.deep_view(), i2) ==> tokens_of(
                            #[trigger] lines.deep_view()[i2],
                        )[2] != tokens_of(lines.deep_view()[x])[2]) implies batch_has_pair(
                    batch@,
                    tokens_of(lines.deep_view()[x])[2],
                    tokens_of(lines.deep_view()[x])[1],
                ) by {
                    if x >= i {
                        assert(tokens_of(lines.deep_view()[i as int]).len() == 0);
                        assert(!is_fetch_line(lines.deep_view(), x) || !before_batch_end(
                            lines.deep_view(),
                            x,
                        ));
                    } else {
                        assert forall|k2: int|
                            x < k2 < i implies tokens_of(#[trigger] lines.deep_view()[k2])[2]
                            != tokens_of(lines.deep_view()[x])[2] by {
                            assert(before_batch_end(lines.deep_view(), k2));
                            assert(is_fetch_line(lines.deep_view(), k2));
                        }
                    }
                }
                if forall|x: int|
                    #![trigger lines.deep_view()[x]]
                    0 <= x < lines.deep_view().len() && before_batch_end(lines.deep_view(), x)
                        && is_fetch_line(lines.deep_view(), x) ==> tokens_of(
                        lines.deep_view()[x],
                    )[2] != initial_refstr@ {
                    assert forall|k: int|
                        #![trigger lines.deep_view()[k]]
                        0 <= k < i implies tokens_of(lines.deep_view()[k])[2]
                        != initial_refstr@ by {
                        assert(before_batch_end(lines.deep_view(), k));
                        assert(is_fetch_line(lines.deep_view(), k));
                    }
                    assert(batch_has_pair(batch@, initial_refstr@, initial_oid@));
                }
            }
            return Ok(batch);
        }
        if tokens.len() == 3 && str_eq(tokens[0].as_str(), "fetch") {
            let ghost prev = batch@;
            let oid = tokens[1].clone();
            let refstr = tokens[2].clone();
            let ghost oidv = oid@;
            let ghost refv = refstr@;
            batch_insert(&mut batch, refstr, oid);
            proof {
                assert(tokens.deep_view()[0] == tokens@[0]@);
                assert(tokens.deep_view()[1] == tokens@[1]@);
                assert(tokens.deep_view()[2] == tokens@[2]@);
                assert(tokens.deep_view() =~= seq!["fetch"@, oidv, refv]);
                assert(tokens_of(lines.deep_view()[i as int]) =~= seq!["fetch"@, oidv, refv]);
                assert forall|k: int|
                    0 <= k < batch@.len() implies ((#[trigger] batch@[k].refstr@)
                    == initial_refstr@ && batch@[k].oid@ == initial_oid@) || exists|j: int|
                    0 <= j < lines.deep_view().len() && tokens_of(#[trigger] lines.deep_view()[j])
                        =~= seq!["fetch"@, batch@[k].oid@, batch@[k].refstr@] by {
                    if batch@[k].refstr@ == refv && batch@[k].oid@ == oidv {
                        assert(tokens_of(lines.deep_view()[i as int]) =~= seq![
                            "fetch"@,
                            batch@[k].oid@,
                            batch@[k].refstr@,
                        ]);
                    } else {
                        let q = choose|q: int|
                            0 <= q < prev.len() && prev[q].refstr@ == batch@[k].refstr@
                                && prev[q].oid@ == batch@[k].oid@;
                        assert(((prev[q].refstr@ == initial_refstr@ && prev[q].oid@
                            == initial_oid@)) || exists|j: int|
                            0 <= j < lines.deep_view().len() && tokens_of(
                                #[trigger] lines.deep_view()[j],
                            ) =~= seq!["fetch"@, prev[q].oid@, prev[q].refstr@]);
                    }
                }
                assert(tokens_of(lines.deep_view()[i as int])[2] == refv);
                assert(tokens_of(lines.deep_view()[i as int])[1] == oidv);
                assert(batch_has_ref(batch@, refv));
                assert forall|k: int|
                    0 <= k < i + 1 && tokens_of(#[trigger] lines.deep_view()[k]).len() == 3
                        && tokens_of(lines.deep_view()[k])[0] == "fetch"@ implies batch_has_ref(
                    batch@,
                    tokens_of(lines.deep_view()[k])[2],
                ) by {
                    if k < i {
                        assert(batch_has_ref(prev, tokens_of(lines.deep_view()[k])[2]));
                    }
                }
                // Last writer wins: earlier pairs for other references stay.
                assert forall|k: int|
                    #![trigger lines.deep_view()[k]]
                    0 <= k < i + 1 && (forall|k2: int|
                        k < k2 < i + 1 ==> tokens_of(#[trigger] lines.deep_view()[k2])[2]
                            != tokens_of(lines.deep_view()[k])[2]) implies batch_has_pair(
                    batch@,
                    tokens_of(lines.deep_view()[k])[2],
                    tokens_of(lines.deep_view()[k])[1],
                ) by {
                    if k == i {
                        assert(batch_has_pair(batch@, refv, oidv));
                    } else {
                        assert(tokens_of(lines.deep_view()[i as int])[2] != tokens_of(
                            lines.deep_view()[k],
                        )[2]);
                        assert forall|k2: int|
                            k < k2 < i implies tokens_of(#[trigger] lines.deep_view()[k2])[2]
                            != tokens_of(lines.deep_view()[k])[2] by {}
                        assert(batch_has_pair(
                            prev,
                            tokens_of(lines.deep_view()[k])[2],
                            tokens_of(lines.deep_view()[k])[1],
                        ));
                        assert(tokens_of(lines.deep_view()[k])[2] != refv);
                    }
                }
                if forall|k: int|
                    #![trigger lines.deep_view()[k]]
                    0 <= k < i + 1 ==> tokens_of(lines.deep_view()[k])[2] != initial_refstr@ {
                    assert(forall|k: int|
                        #![trigger lines.deep_view()[k]]
                        0 <= k < i ==> tokens_of(lines.deep_view()[k])[2] != initial_refstr@);
                    assert(batch_has_pair(prev, initial_refstr@, initial_oid@));
                    assert(refv != initial_refstr@);
                    assert(batch_has_pair(batch@, initial_refstr@, initial_oid@));
                }
            }
        } else {
            let mut e = String::new();
            e.append("after a fetch command only another fetch or an empty line is expected");
            assert(!batch_line_ok(tokens_of(lines.deep_view()[i as int])));
            return Err(e);
        }
        i += 1;
    }
    proof {
        assert forall|x: int|
            0 <= x < lines.deep_view().len() && before_batch_end(lines.deep_view(), x)
            implies batch_line_ok(tokens_of(#[trigger] lines.deep_view()[x])) by {
            assert(is_fetch_line(lines.deep_view(), x));
        }
        assert forall|x: int|
            #![trigger lines.deep_view()[x]]
            0 <= x < lines.deep_view().len() && before_batch_end(lines.deep_view(), x)
                && is_fetch_line(lines.deep_view(), x) && (forall|i2: int|
                x < i2 < lines.deep_view().len() && before_batch_end(lines.deep_view(), i2)
                    && is_fetch_line(lines.deep_view(), i2) ==> tokens_of(
                    #[trigger] lines.deep_view()[i2],
                )[2] != tokens_of(lines.deep_view()[x])[2]) implies batch_has_pair(
            batch@,
            tokens_of(lines.deep_view()[x])[2],
            tokens_of(lines.deep_view()[x])[1],
        ) by {
            assert forall|k2: int|
                x < k2 < i implies tokens_of(#[trigger] lines.deep_view()[k2])[2] != tokens_of(
                lines.deep_view()[x],
            )[2] by {
                assert(before_batch_end(lines.deep_view(), k2));
                assert(is_fetch_line(lines.deep_view(), k2));
            }
        }
        if forall|x: int|
            #![trigger lines.deep_view()[x]]
            0 <= x < lines.deep_view().len() && before_batch_end(lines.deep_view(), x)
                && is_fetch_line(lines.deep_view(), x) ==> tokens_of(lines.deep_view()[x])[2]
                != initial_refstr@ {
            assert forall|k: int|
                #![trigger lines.deep_view()[k]]
                0 <= k < i implies tokens_of(lines.deep_view()[k])[2] != initial_refstr@ by {
                assert(before_batch_end(lines.deep_view(), k));
                assert(is_fetch_line(lines.deep_view(), k));
            }
            assert(batch_has_pair(batch@, initial_refstr@, initial_oid@));
        }
    }
    Ok(batch)
}

} // verus!