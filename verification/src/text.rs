//! Character-level string helpers with exact contracts.

use vstd::prelude::*;
use vstd::string::*;

verus! {

/// `parts` joined by `sep`: the parts in order with one `sep` between each two of them.
pub open spec fn join_with(parts: Seq<Seq<char>>, sep: Seq<char>) -> Seq<char>
    decreases parts.len(),
{
    if parts.len() == 0 {
        Seq::empty()
    } else if parts.len() == 1 {
        parts[0]
    } else {
        join_with(parts.drop_last(), sep) + sep + parts.last()
    }
}

/// The views of a vector of strings.
pub open spec fn views_of(v: Seq<String>) -> Seq<Seq<char>> {
    v.map_values(|s: String| s@)
}

/// The first `n` elements of `s`, or all of `s` where it is shorter.
pub open spec fn prefix<A>(s: Seq<A>, n: nat) -> Seq<A> {
    if s.len() <= n {
        s
    } else {
        s.take(n as int)
    }
}

/// `needle` occurs in `hay` starting at position `i`.
pub open spec fn occurs_at(hay: Seq<char>, needle: Seq<char>, i: int) -> bool {
    &&& 0 <= i
    &&& i + needle.len() <= hay.len()
    &&& hay.subrange(i, i + needle.len()) == needle
}

/// `needle` occurs somewhere in `hay` (the empty sequence occurs everywhere).
pub open spec fn contains_chars(hay: Seq<char>, needle: Seq<char>) -> bool {
    exists|i: int| occurs_at(hay, needle, i)
}

/// The lowercase form of a string as `str::to_lowercase` computes it (Unicode `Lowercase` mapping).
pub uninterp spec fn lowercase(s: Seq<char>) -> Seq<char>;

/// Calls `str::to_lowercase`, which maps every character of `s` to its Unicode lowercase
/// form. Its result is a function of `s` alone and is named `lowercase`; nothing more of the
/// mapping is stated here.
#[verifier::external_body]
pub(crate) fn to_lowercase(s: &str) -> (out: String)
    ensures
        out@ == lowercase(s@),
{
    s.to_lowercase()
}

/// Returns the characters of `s`, in order.
pub fn chars_of(s: &str) -> (out: Vec<char>)
    ensures
        out@ == s@,
{
    let mut out: Vec<char> = Vec::new();
    for c in it: s.chars()
        invariant
            out@ == it.seq().take(it.index() as int),
            it.seq() == s@,
    {
        out.push(c);
    }
    out
}

/// Concatenates `a` and `b`.
pub fn concat_str(a: &str, b: &str) -> (out: String)
    ensures
        out@ == a@ + b@,
{
    let mut out = String::from_str(a);
    out.append(b);
    out
}

/// Joins `parts` with `sep` between each two of them, as `[String]::join` does.
pub fn join(parts: &Vec<String>, sep: &str) -> (out: String)
    ensures
        out@ == join_with(views_of(parts@), sep@),
{
    let ghost all = views_of(parts@);
    let mut out = String::new();
    let n = parts.len();
    assert(all.take(0) =~= Seq::<Seq<char>>::empty());
    for i in 0..n
        invariant
            n == parts.len(),
            all == views_of(parts@),
            all.len() == n,
            out@ == join_with(all.take(i as int), sep@),
    {
        assert(all.take(i + 1).drop_last() =~= all.take(i as int));
        assert(all.take(i + 1).last() == parts[i as int]@);
        if i != 0 {
            out.append(sep);
        } else {
            assert(all.take(1) =~= seq![all[0]]);
        }
        out.append(parts[i].as_str());
    }
    assert(all.take(n as int) =~= all);
    out
}

/// The first `n` characters of `s`, as `s.chars().take(n).collect::<String>()` gives them.
pub fn first_chars(s: &str, n: usize) -> (out: String)
    ensures
        out@ == prefix(s@, n as nat),
{
    let len = s.unicode_len();
    let k = if len <= n { len } else { n };
    let part = s.substring_char(0, k);
    assert(s@.subrange(0, len as int) =~= s@);
    String::from_str(part)
}

/// Whether `needle` occurs at position `i` of `hay`.
fn occurs_at_exec(hay: &Vec<char>, needle: &Vec<char>, i: usize) -> (r: bool)
    requires
        i + needle.len() <= hay.len(),
    ensures
        r == occurs_at(hay@, needle@, i as int),
{
    let m = needle.len();
    for k in 0..m
        invariant
            m == needle.len(),
            i + m <= hay.len(),
            forall|j: int| 0 <= j < k ==> hay@[i + j] == needle@[j],
    {
        if hay[i + k] != needle[k] {
            assert(hay@.subrange(i as int, i + m)[k as int] != needle@[k as int]);
            return false;
        }
    }
    assert(hay@.subrange(i as int, i + m) =~= needle@);
    true
}

/// Whether `needle` occurs in `hay`, as `str::contains` with a `&str` pattern answers.
pub fn contains(hay: &str, needle: &str) -> (r: bool)
    ensures
        r == contains_chars(hay@, needle@),
{
    let h = chars_of(hay);
    let nd = chars_of(needle);
    if nd.len() > h.len() {
        return false;
    }
    let last = h.len() - nd.len();
    let mut i: usize = 0;
    while i <= last
        invariant_except_break
            i <= last,
        invariant
            h@ == hay@,
            nd@ == needle@,
            last + nd.len() == h.len(),
            forall|j: int| 0 <= j < i ==> !occurs_at(hay@, needle@, j),
        ensures
            forall|j: int| 0 <= j <= last ==> !occurs_at(hay@, needle@, j),
        decreases last + 1 - i,
    {
        if occurs_at_exec(&h, &nd, i) {
            return true;
        }
        if i == last {
            break;
        }
        i = i + 1;
    }
    false
}

/// Where `m` occurs in `h` at `i` and `n` occurs in `m` at `j`, `n` occurs in `h` at `i + j`.
proof fn lemma_occurs_at_trans(h: Seq<char>, m: Seq<char>, n: Seq<char>, i: int, j: int)
    requires
        occurs_at(h, m, i),
        occurs_at(m, n, j),
    ensures
        occurs_at(h, n, i + j),
{
    assert forall|k: int| 0 <= k < n.len() implies h.subrange(i + j, i + j + n.len())[k] == n[k] by {
        assert(h.subrange(i, i + m.len())[j + k] == m[j + k]);
        assert(m.subrange(j, j + n.len())[k] == n[k]);
    }
    assert(h.subrange(i + j, i + j + n.len()) =~= n);
}

/// Occurring in is transitive: what occurs in something that occurs in `h` occurs in `h`.
pub proof fn lemma_contains_trans(h: Seq<char>, m: Seq<char>, n: Seq<char>)
    requires
        contains_chars(h, m),
        contains_chars(m, n),
    ensures
        contains_chars(h, n),
{
    let i = choose|i: int| occurs_at(h, m, i);
    let j = choose|j: int| occurs_at(m, n, j);
    lemma_occurs_at_trans(h, m, n, i, j);
}

/// Where the `k`-th part starts in `join_with(parts, sep)` for a separator of length
/// `sep_len`: after the earlier parts, each followed by a separator.
pub open spec fn join_offset(parts: Seq<Seq<char>>, sep_len: nat, k: int) -> int
    decreases k,
{
    if k <= 0 {
        0
    } else {
        join_offset(parts, sep_len, k - 1) + parts[k - 1].len() + sep_len
    }
}

/// Offsets only look at the parts before `k`.
proof fn lemma_join_offset_prefix(parts: Seq<Seq<char>>, init: Seq<Seq<char>>, sep_len: nat, k: int)
    requires
        0 <= k <= init.len() <= parts.len(),
        forall|j: int| 0 <= j < init.len() ==> init[j] == parts[j],
    ensures
        join_offset(parts, sep_len, k) == join_offset(init, sep_len, k),
    decreases k,
{
    if k > 0 {
        lemma_join_offset_prefix(parts, init, sep_len, k - 1);
    }
}

/// Offsets are never negative.
proof fn lemma_join_offset_nonneg(parts: Seq<Seq<char>>, sep_len: nat, k: int)
    ensures
        join_offset(parts, sep_len, k) >= 0,
    decreases k,
{
    if k > 0 {
        lemma_join_offset_nonneg(parts, sep_len, k - 1);
    }
}

/// A part ends no later than any later part ends.
proof fn lemma_join_offset_mono(parts: Seq<Seq<char>>, sep_len: nat, k: int, m: int)
    requires
        0 <= k <= m < parts.len(),
    ensures
        join_offset(parts, sep_len, k) + parts[k].len() <= join_offset(parts, sep_len, m) + parts[m].len(),
    decreases m - k,
{
    if k < m {
        lemma_join_offset_mono(parts, sep_len, k + 1, m);
        assert(join_offset(parts, sep_len, k + 1) == join_offset(parts, sep_len, k) + parts[k].len()
            + sep_len);
    }
}

/// The part of `head + sep + last` before `head` ends is that of `head`.
proof fn lemma_subrange_in_head(head: Seq<char>, sep: Seq<char>, last: Seq<char>, a: int, b: int)
    requires
        0 <= a <= b <= head.len(),
    ensures
        (head + sep + last).subrange(a, b) == head.subrange(a, b),
{
    assert((head + sep + last).subrange(a, b) =~= head.subrange(a, b));
}

/// The facts of `lemma_join_with_layout` for one sequence of parts.
#[verifier::opaque]
pub open spec fn join_layout(parts: Seq<Seq<char>>, sep: Seq<char>) -> bool {
    &&& parts.len() == 0 ==> join_with(parts, sep).len() == 0
    &&& parts.len() > 0 ==> join_with(parts, sep).len() == join_offset(
        parts,
        sep.len(),
        parts.len() - 1,
    ) + parts.last().len()
    &&& forall|k: int|
        #![trigger parts[k]]
        0 <= k < parts.len() ==> join_with(parts, sep).subrange(
            join_offset(parts, sep.len(), k),
            join_offset(parts, sep.len(), k) + parts[k].len(),
        ) == parts[k]
    &&& forall|k: int|
        #![trigger parts[k]]
        0 < k < parts.len() ==> join_with(parts, sep).subrange(
            join_offset(parts, sep.len(), k) - sep.len(),
            join_offset(parts, sep.len(), k),
        ) == sep
}

/// Part `k` of `parts` stands where the layout puts it, given the layout of all parts but
/// the last.
proof fn lemma_join_part_placed(parts: Seq<Seq<char>>, sep: Seq<char>, k: int)
    requires
        parts.len() >= 2,
        0 <= k < parts.len(),
        join_layout(parts.drop_last(), sep),
    ensures
        join_with(parts, sep).subrange(
            join_offset(parts, sep.len(), k),
            join_offset(parts, sep.len(), k) + parts[k].len(),
        ) == parts[k],
{
    reveal(join_layout);
    let s = sep.len();
    let n = parts.len() as int;
    let init = parts.drop_last();
    let head = join_with(init, sep);
    let last = parts.last();
    assert(join_with(parts, sep) == head + sep + last);
    lemma_join_offset_prefix(parts, init, s, n - 2);
    assert(init[n - 2] == parts[n - 2]);
    assert(head.len() == join_offset(init, s, n - 2) + init[n - 2].len());
    if k < n - 1 {
        lemma_join_offset_prefix(parts, init, s, k);
        lemma_join_offset_mono(init, s, k, n - 2);
        lemma_join_offset_nonneg(init, s, k);
        assert(init[k] == parts[k]);
        assert(head.subrange(join_offset(init, s, k), join_offset(init, s, k) + init[k].len())
            == init[k]);
        lemma_subrange_in_head(
            head,
            sep,
            last,
            join_offset(init, s, k),
            join_offset(init, s, k) + init[k].len(),
        );
    } else {
        assert(join_offset(parts, s, n - 1) == join_offset(parts, s, n - 2) + parts[n - 2].len() + s);
        assert((head + sep + last).subrange(head.len() + s as int, head.len() + s + last.len() as int)
            =~= last);
    }
}

/// The separator before part `k > 0` stands where the layout puts it, given the layout of
/// all parts but the last.
proof fn lemma_join_sep_placed(parts: Seq<Seq<char>>, sep: Seq<char>, k: int)
    requires
        parts.len() >= 2,
        0 < k < parts.len(),
        join_layout(parts.drop_last(), sep),
    ensures
        join_with(parts, sep).subrange(
            join_offset(parts, sep.len(), k) - sep.len(),
            join_offset(parts, sep.len(), k),
        ) == sep,
{
    reveal(join_layout);
    let s = sep.len();
    let n = parts.len() as int;
    let init = parts.drop_last();
    let head = join_with(init, sep);
    let last = parts.last();
    assert(join_with(parts, sep) == head + sep + last);
    lemma_join_offset_prefix(parts, init, s, n - 2);
    assert(init[n - 2] == parts[n - 2]);
    assert(head.len() == join_offset(init, s, n - 2) + init[n - 2].len());
    if k < n - 1 {
        lemma_join_offset_prefix(parts, init, s, k);
        lemma_join_offset_mono(init, s, k, n - 2);
        assert(init[k] == parts[k]);
        assert(head.subrange(join_offset(init, s, k) - s, join_offset(init, s, k)) == sep);
        assert(join_offset(init, s, k) == join_offset(init, s, k - 1) + init[k - 1].len() + s);
        lemma_join_offset_nonneg(init, s, k - 1);
        lemma_subrange_in_head(head, sep, last, join_offset(init, s, k) - s, join_offset(init, s, k));
    } else {
        assert(join_offset(parts, s, n - 1) == join_offset(parts, s, n - 2) + parts[n - 2].len() + s);
        assert((head + sep + last).subrange(head.len() as int, head.len() + s as int) =~= sep);
    }
}

/// The length of the parts joined, given the layout of all parts but the last.
proof fn lemma_join_length(parts: Seq<Seq<char>>, sep: Seq<char>)
    requires
        parts.len() >= 2,
        join_layout(parts.drop_last(), sep),
    ensures
        join_with(parts, sep).len() == join_offset(parts, sep.len(), parts.len() - 1)
            + parts.last().len(),
{
    reveal(join_layout);
    let s = sep.len();
    let n = parts.len() as int;
    let init = parts.drop_last();
    let head = join_with(init, sep);
    assert(join_with(parts, sep) == head + sep + parts.last());
    lemma_join_offset_prefix(parts, init, s, n - 2);
    assert(init[n - 2] == parts[n - 2]);
    assert(join_offset(parts, s, n - 1) == join_offset(parts, s, n - 2) + parts[n - 2].len() + s);
}

/// One more part keeps the layout.
proof fn lemma_join_layout_step(parts: Seq<Seq<char>>, sep: Seq<char>)
    requires
        parts.len() >= 2,
        join_layout(parts.drop_last(), sep),
    ensures
        join_layout(parts, sep),
{
    let s = sep.len();
    let n = parts.len() as int;
    assert forall|k: int| 0 <= k < n implies #[trigger] join_with(parts, sep).subrange(
        join_offset(parts, s, k),
        join_offset(parts, s, k) + parts[k].len(),
    ) == parts[k] by {
        lemma_join_part_placed(parts, sep, k);
    }
    assert forall|k: int| 0 < k < n implies #[trigger] join_with(parts, sep).subrange(
        join_offset(parts, s, k) - s,
        join_offset(parts, s, k),
    ) == sep by {
        lemma_join_sep_placed(parts, sep, k);
    }
    lemma_join_part_placed(parts, sep, n - 1);
    lemma_join_length(parts, sep);
    reveal(join_layout);
    assert forall|k: int| #![trigger parts[k]] 0 <= k < n implies join_with(parts, sep).subrange(
        join_offset(parts, s, k),
        join_offset(parts, s, k) + parts[k].len(),
    ) == parts[k] by {}
    assert forall|k: int| #![trigger parts[k]] 0 < k < n implies join_with(parts, sep).subrange(
        join_offset(parts, s, k) - s,
        join_offset(parts, s, k),
    ) == sep by {}
}

/// The layout of `join_with(parts, sep)`: part `k` stands at `join_offset(parts, |sep|, k)`,
/// each part after the first is preceded by `sep`, and the whole ends with the last part (it
/// is empty where there are no parts).
pub proof fn lemma_join_with_layout(parts: Seq<Seq<char>>, sep: Seq<char>)
    ensures
        join_layout(parts, sep),
    decreases parts.len(),
{
    if parts.len() <= 1 {
        reveal(join_layout);
        if parts.len() == 1 {
            assert(join_with(parts, sep) == parts[0]);
            assert(join_with(parts, sep).subrange(0, parts[0].len() as int) =~= parts[0]);
        }
    } else if parts.len() >= 2 {
        lemma_join_with_layout(parts.drop_last(), sep);
        lemma_join_layout_step(parts, sep);
    }
}

/// Parts joined by ", ": part `k` stands at `join_offset(parts, 2, k)`, each part after the
/// first is preceded by ", ", and the whole ends with the last part.
pub proof fn lemma_join_comma(parts: Seq<Seq<char>>)
    ensures
        parts.len() == 0 ==> join_with(parts, ", "@).len() == 0,
        parts.len() > 0 ==> join_with(parts, ", "@).len() == join_offset(parts, 2, parts.len() - 1)
            + parts.last().len(),
        forall|k: int|
            #![trigger parts[k]]
            0 <= k < parts.len() ==> join_with(parts, ", "@).subrange(
                join_offset(parts, 2, k),
                join_offset(parts, 2, k) + parts[k].len(),
            ) == parts[k],
        forall|k: int|
            #![trigger join_offset(parts, 2, k)]
            0 < k < parts.len() ==> join_with(parts, ", "@).subrange(
                join_offset(parts, 2, k) - 2,
                join_offset(parts, 2, k),
            ) == ", "@,
{
    reveal_strlit(", ");
    lemma_join_with_layout(parts, ", "@);
    reveal(join_layout);
    let sep = ", "@;
    assert(sep.len() == 2);
    assert forall|k: int| #![trigger join_offset(parts, 2, k)] 0 < k < parts.len() implies join_with(parts, ", "@).subrange(
        join_offset(parts, 2, k) - 2,
        join_offset(parts, 2, k),
    ) == ", "@ by {
        let o = join_offset(parts, sep.len(), k);
        let part = parts[k];
        assert(join_with(parts, sep).subrange(o - sep.len(), o) == sep);
        assert(o == join_offset(parts, 2, k));
        assert(o - sep.len() == join_offset(parts, 2, k) - 2);
    }
}

/// The first `n` elements: as many as `s` has up to `n`, each the element at the same
/// position of `s`.
pub proof fn lemma_prefix<A>(s: Seq<A>, n: nat)
    ensures
        prefix(s, n).len() == if s.len() <= n { s.len() } else { n },
        forall|k: int| 0 <= k < prefix(s, n).len() ==> #[trigger] prefix(s, n)[k] == s[k],
{
}

} // verus!
