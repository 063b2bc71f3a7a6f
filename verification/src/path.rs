//! Resource paths as sequences of characters: separators, trimming,
//! joining of segments, and the laws that relate them.

use vstd::prelude::*;

verus! {

/// The path separator.
pub open spec fn spec_separator() -> char {
    '/'
}

/// `n` separators in a row.
pub open spec fn spec_separators(n: nat) -> Seq<char> {
    Seq::new(n, |i: int| '/')
}

/// True when no character of `s` is a separator.
pub open spec fn spec_no_separator(s: Seq<char>) -> bool {
    forall|i: int| 0 <= i < s.len() ==> s[i] != '/'
}

/// `s` without its leading separators.
pub open spec fn spec_trim_start(s: Seq<char>) -> Seq<char>
    decreases s.len(),
{
    if s.len() > 0 && s[0] == '/' {
        spec_trim_start(s.drop_first())
    } else {
        s
    }
}

/// `s` without its trailing separators.
pub open spec fn spec_trim_end(s: Seq<char>) -> Seq<char>
    decreases s.len(),
{
    if s.len() > 0 && s.last() == '/' {
        spec_trim_end(s.drop_last())
    } else {
        s
    }
}

/// `s` without its leading and trailing separators.
pub open spec fn spec_trim(s: Seq<char>) -> Seq<char> {
    spec_trim_start(spec_trim_end(s))
}

/// Index of the last separator of `s`, or -1 when it has none.
pub open spec fn spec_last_separator(s: Seq<char>) -> int
    decreases s.len(),
{
    if s.len() == 0 {
        -1
    } else if s.last() == '/' {
        s.len() - 1
    } else {
        spec_last_separator(s.drop_last())
    }
}

/// The segments joined by single separators, with none at either end.
pub open spec fn spec_join(segments: Seq<Seq<char>>) -> Seq<char>
    decreases segments.len(),
{
    if segments.len() == 0 {
        Seq::empty()
    } else if segments.len() == 1 {
        segments[0]
    } else {
        spec_join(segments.drop_last()) + seq!['/'] + segments.last()
    }
}

/// True when every segment is non-empty and holds no separator.
pub open spec fn spec_proper_segments(segments: Seq<Seq<char>>) -> bool {
    forall|i: int|
        0 <= i < segments.len() ==> (#[trigger] segments[i]).len() > 0 && spec_no_separator(
            segments[i],
        )
}

/// Number of non-empty segments of `s`: the positions at which a run of
/// characters other than the separator begins.
pub open spec fn spec_segment_count(s: Seq<char>) -> nat
    decreases s.len(),
{
    if s.len() == 0 {
        0
    } else {
        let starts: nat = if s.last() != '/' && (s.len() == 1 || s[s.len() - 2] == '/') {
            1
        } else {
            0
        };
        spec_segment_count(s.drop_last()) + starts
    }
}

/// Cutting `a` leading separators leaves what trimming the start leaves,
/// when the cut stops at the first character that is no separator.
pub proof fn lemma_trim_start_at(s: Seq<char>, a: int)
    requires
        0 <= a <= s.len(),
        forall|j: int| 0 <= j < a ==> s[j] == '/',
        a == s.len() || s[a] != '/',
    ensures
        spec_trim_start(s) == s.subrange(a, s.len() as int),
    decreases a,
{
    if a == 0 {
        assert(s.subrange(0, s.len() as int) =~= s);
    } else {
        let rest = s.drop_first();
        assert forall|j: int| 0 <= j < a - 1 implies rest[j] == '/' by {
            assert(rest[j] == s[j + 1]);
        }
        lemma_trim_start_at(rest, a - 1);
        assert(rest.subrange(a - 1, rest.len() as int) =~= s.subrange(a, s.len() as int));
    }
}

/// Cutting after position `b` leaves what trimming the end leaves, when all
/// that is cut are separators and the cut stops behind another character.
pub proof fn lemma_trim_end_at(s: Seq<char>, b: int)
    requires
        0 <= b <= s.len(),
        forall|j: int| b <= j < s.len() ==> s[j] == '/',
        b == 0 || s[b - 1] != '/',
    ensures
        spec_trim_end(s) == s.subrange(0, b),
    decreases s.len() - b,
{
    if b == s.len() {
        assert(s.subrange(0, b) =~= s);
    } else {
        let rest = s.drop_last();
        lemma_trim_end_at(rest, b);
        assert(rest.subrange(0, b) =~= s.subrange(0, b));
    }
}

/// The last separator stands at `k` when `k` holds one and nothing behind
/// it does; there is none when `k` is -1 and no position holds one.
pub proof fn lemma_last_separator_at(s: Seq<char>, k: int)
    requires
        -1 <= k < s.len(),
        forall|j: int| k < j < s.len() ==> s[j] != '/',
        k >= 0 ==> s[k] == '/',
    ensures
        spec_last_separator(s) == k,
    decreases s.len(),
{
    if s.len() > 0 && k < s.len() - 1 {
        lemma_last_separator_at(s.drop_last(), k);
    }
}

/// Nothing behind the last separator of a path is a separator.
pub proof fn lemma_last_separator_is_last(s: Seq<char>)
    ensures
        -1 <= spec_last_separator(s) < s.len(),
        spec_last_separator(s) >= 0 ==> s[spec_last_separator(s)] == '/',
        forall|j: int| spec_last_separator(s) < j < s.len() ==> s[j] != '/',
    decreases s.len(),
{
    if s.len() > 0 && s.last() != '/' {
        let front = s.drop_last();
        lemma_last_separator_is_last(front);
        assert forall|j: int| spec_last_separator(s) < j < s.len() implies s[j] != '/' by {
            if j < front.len() {
                assert(front[j] == s[j]);
            }
        }
    }
}

/// Separators appended to a path do not change what trimming its end
/// leaves.
pub proof fn lemma_trim_end_ignores_trailing(s: Seq<char>, n: nat)
    ensures
        spec_trim_end(s + spec_separators(n)) == spec_trim_end(s),
    decreases n,
{
    let whole = s + spec_separators(n);
    if n == 0 {
        assert(whole =~= s);
    } else {
        assert(whole.last() == '/');
        assert(whole.drop_last() =~= s + spec_separators((n - 1) as nat));
        lemma_trim_end_ignores_trailing(s, (n - 1) as nat);
    }
}

/// Separators put before a path do not change what trimming its start
/// leaves.
pub proof fn lemma_trim_start_ignores_leading(n: nat, s: Seq<char>)
    ensures
        spec_trim_start(spec_separators(n) + s) == spec_trim_start(s),
    decreases n,
{
    let whole = spec_separators(n) + s;
    if n == 0 {
        assert(whole =~= s);
    } else {
        assert(whole[0] == '/');
        assert(whole.drop_first() =~= spec_separators((n - 1) as nat) + s);
        lemma_trim_start_ignores_leading((n - 1) as nat, s);
    }
}

/// Proper segments, joined, begin and end with a character that is no
/// separator.
pub proof fn lemma_join_ends(segments: Seq<Seq<char>>)
    requires
        segments.len() >= 1,
        spec_proper_segments(segments),
    ensures
        spec_join(segments).len() > 0,
        spec_join(segments)[0] != '/',
        spec_join(segments).last() != '/',
    decreases segments.len(),
{
    let last = segments.last();
    assert(last == segments[segments.len() - 1]);
    assert(last.len() > 0 && spec_no_separator(last));
    if segments.len() == 1 {
        assert(segments[0][0] != '/');
    } else {
        let front = segments.drop_last();
        assert forall|i: int| 0 <= i < front.len() implies (#[trigger] front[i]).len() > 0
            && spec_no_separator(front[i]) by {
            assert(front[i] == segments[i]);
        }
        lemma_join_ends(front);
        let joined = spec_join(segments);
        assert(joined == spec_join(front) + seq!['/'] + last);
        assert(joined[0] == spec_join(front)[0]);
        assert(joined.last() == last.last());
    }
}

/// Trimming takes from joined proper segments exactly the separators that
/// were put around them.
pub proof fn lemma_trim_of_joined(segments: Seq<Seq<char>>, leading: nat, trailing: nat)
    requires
        segments.len() >= 1,
        spec_proper_segments(segments),
    ensures
        spec_trim(spec_separators(leading) + spec_join(segments) + spec_separators(trailing))
            == spec_join(segments),
{
    let joined = spec_join(segments);
    let front = spec_separators(leading) + joined;
    lemma_join_ends(segments);
    lemma_trim_end_ignores_trailing(front, trailing);
    assert(front.last() == joined.last());
    assert(spec_trim_end(front) == front);
    lemma_trim_start_ignores_leading(leading, joined);
    assert(spec_trim_start(joined) == joined);
}

/// Separators appended to a path do not change how many segments it has.
pub proof fn lemma_segment_count_ignores_trailing(s: Seq<char>, n: nat)
    ensures
        spec_segment_count(s + spec_separators(n)) == spec_segment_count(s),
    decreases n,
{
    let whole = s + spec_separators(n);
    if n == 0 {
        assert(whole =~= s);
    } else {
        assert(whole.last() == '/');
        assert(whole.drop_last() =~= s + spec_separators((n - 1) as nat));
        lemma_segment_count_ignores_trailing(s, (n - 1) as nat);
    }
}

/// A proper segment that follows a separator, or begins the path, counts as
/// one more segment.
pub proof fn lemma_segment_count_one_more(a: Seq<char>, segment: Seq<char>)
    requires
        a.len() == 0 || a.last() == '/',
        segment.len() > 0,
        spec_no_separator(segment),
    ensures
        spec_segment_count(a + segment) == spec_segment_count(a) + 1,
    decreases segment.len(),
{
    let whole = a + segment;
    assert(whole.last() == segment.last());
    if segment.len() == 1 {
        assert(whole.drop_last() =~= a);
        assert(a.len() > 0 ==> whole[whole.len() - 2] == a.last());
    } else {
        let shorter = segment.drop_last();
        assert(whole.drop_last() =~= a + shorter);
        assert(whole[whole.len() - 2] == segment[segment.len() - 2]);
        lemma_segment_count_one_more(a, shorter);
    }
}

/// A path made of `segments.len()` proper segments, with any number of
/// separators before and behind, has that many segments.
pub proof fn lemma_segment_count_of_joined(
    segments: Seq<Seq<char>>,
    leading: nat,
    trailing: nat,
)
    requires
        spec_proper_segments(segments),
    ensures
        spec_segment_count(
            spec_separators(leading) + spec_join(segments) + spec_separators(trailing),
        ) == segments.len(),
    decreases segments.len(),
{
    let joined = spec_join(segments);
    let head = spec_separators(leading);
    lemma_segment_count_ignores_trailing(head + joined, trailing);
    if segments.len() == 0 {
        assert(head + joined =~= Seq::<char>::empty() + head);
        lemma_segment_count_ignores_trailing(Seq::<char>::empty(), leading);
    } else if segments.len() == 1 {
        assert(head =~= Seq::<char>::empty() + head);
        lemma_segment_count_ignores_trailing(Seq::<char>::empty(), leading);
        lemma_segment_count_one_more(head, segments[0]);
    } else {
        let front = segments.drop_last();
        let last = segments.last();
        assert(last == segments[segments.len() - 1]);
        assert forall|i: int| 0 <= i < front.len() implies (#[trigger] front[i]).len() > 0
            && spec_no_separator(front[i]) by {
            assert(front[i] == segments[i]);
        }
        lemma_segment_count_of_joined(front, leading, 1);
        let before = head + spec_join(front) + spec_separators(1);
        assert(before =~= head + spec_join(front) + seq!['/']);
        assert(head + joined =~= before + last);
        lemma_segment_count_one_more(before, last);
    }
}

/// The part of `s` that is left when the separators at its end are cut.
pub fn trim_end_separators(s: &str) -> (res: &str)
    ensures
        res@ == spec_trim_end(s@),
{
    let mut b: usize = s.unicode_len();
    while b > 0 && s.get_char(b - 1) == '/'
        invariant
            b <= s@.len(),
            forall|j: int| b <= j < s@.len() ==> s@[j] == '/',
        decreases b,
    {
        b -= 1;
    }
    proof {
        lemma_trim_end_at(s@, b as int);
    }
    s.substring_char(0, b)
}

/// The part of `s` that is left when the separators at its start are cut.
pub fn trim_start_separators(s: &str) -> (res: &str)
    ensures
        res@ == spec_trim_start(s@),
{
    let n: usize = s.unicode_len();
    let mut a: usize = 0;
    while a < n && s.get_char(a) == '/'
        invariant
            a <= n,
            n == s@.len(),
            forall|j: int| 0 <= j < a ==> s@[j] == '/',
        decreases n - a,
    {
        a += 1;
    }
    proof {
        lemma_trim_start_at(s@, a as int);
    }
    s.substring_char(a, n)
}

/// The part of `s` that is left when the separators at both ends are cut.
pub fn trim_separators(s: &str) -> (res: &str)
    ensures
        res@ == spec_trim(s@),
{
    trim_start_separators(trim_end_separators(s))
}

/// Position of the last separator of `s`, if it has one.
pub fn last_separator(s: &str) -> (res: Option<usize>)
    ensures
        match res {
            Some(k) => k as int == spec_last_separator(s@) && k < s@.len(),
            None => spec_last_separator(s@) == -1,
        },
{
    let mut i: usize = s.unicode_len();
    while i > 0 && s.get_char(i - 1) != '/'
        invariant
            i <= s@.len(),
            forall|j: int| i <= j < s@.len() ==> s@[j] != '/',
        decreases i,
    {
        i -= 1;
    }
    proof {
        lemma_last_separator_at(s@, i as int - 1);
    }
    if i == 0 {
        None
    } else {
        Some(i - 1)
    }
}

/// `left`, one separator, then `right`.
pub fn join_path(left: &str, right: &str) -> (res: String)
    ensures
        res@ == left@ + seq!['/'] + right@,
{
    proof {
        reveal_strlit("/");
        assert("/"@ =~= seq!['/']);
    }
    String::from_str(left).concat("/").concat(right)
}

/// True when `s` ends with `suffix`.
pub open spec fn spec_ends_with(s: Seq<char>, suffix: Seq<char>) -> bool {
    suffix.len() <= s.len() && s.subrange(s.len() - suffix.len(), s.len() as int) == suffix
}

/// `s` without any of the copies of `suffix` that stand at its end. An
/// empty suffix takes nothing away.
pub open spec fn spec_trim_end_matches(s: Seq<char>, suffix: Seq<char>) -> Seq<char>
    decreases s.len(),
{
    if suffix.len() > 0 && spec_ends_with(s, suffix) {
        spec_trim_end_matches(s.subrange(0, s.len() - suffix.len()), suffix)
    } else {
        s
    }
}

/// Tells whether `s` ends with `suffix`.
pub fn ends_with(s: &str, suffix: &str) -> (res: bool)
    ensures
        res == spec_ends_with(s@, suffix@),
{
    let n: usize = s.unicode_len();
    let m: usize = suffix.unicode_len();
    if m > n {
        return false;
    }
    let offset: usize = n - m;
    let mut i: usize = 0;
    while i < m
        invariant
            i <= m,
            m <= n,
            offset == n - m,
            n == s@.len(),
            m == suffix@.len(),
            forall|j: int| 0 <= j < i ==> s@[offset + j] == suffix@[j],
        decreases m - i,
    {
        if s.get_char(offset + i) != suffix.get_char(i) {
            proof {
                assert(s@.subrange(offset as int, n as int)[i as int] == s@[offset + i]);
            }
            return false;
        }
        i += 1;
    }
    proof {
        assert(s@.subrange(offset as int, n as int) =~= suffix@);
    }
    true
}

/// The part of `s` that is left when every copy of `suffix` at its end is
/// cut.
pub fn trim_end_matches<'a>(s: &'a str, suffix: &str) -> (res: &'a str)
    ensures
        res@ == spec_trim_end_matches(s@, suffix@),
{
    let m: usize = suffix.unicode_len();
    let mut rest: &'a str = s;
    if m == 0 {
        return rest;
    }
    while ends_with(rest, suffix)
        invariant
            m == suffix@.len(),
            m > 0,
            spec_trim_end_matches(rest@, suffix@) == spec_trim_end_matches(s@, suffix@),
        decreases rest@.len(),
    {
        let n: usize = rest.unicode_len();
        rest = rest.substring_char(0, n - m);
    }
    rest
}

/// The base path of the documents of a project's default database.
pub open spec fn spec_documents_path(project_id: Seq<char>) -> Seq<char> {
    "projects/"@ + project_id + "/databases/(default)/documents"@
}

/// The base path of the documents of a project's default database.
pub fn documents_path(project_id: &str) -> (res: String)
    ensures
        res@ == spec_documents_path(project_id@),
{
    String::from_str("projects/").concat(project_id).concat("/databases/(default)/documents")
}

/// Number of non-empty segments of `s`.
pub fn segment_count(s: &str) -> (res: usize)
    ensures
        res as nat == spec_segment_count(s@),
{
    let n: usize = s.unicode_len();
    let mut count: usize = 0;
    let mut after_separator: bool = true;
    let mut i: usize = 0;
    while i < n
        invariant
            i <= n,
            n == s@.len(),
            count <= i,
            count as nat == spec_segment_count(s@.subrange(0, i as int)),
            after_separator == (i == 0 || s@[i - 1] == '/'),
        decreases n - i,
    {
        let c: char = s.get_char(i);
        proof {
            let next = s@.subrange(0, i + 1);
            assert(next.drop_last() =~= s@.subrange(0, i as int));
            assert(next.last() == c);
            assert(i > 0 ==> next[next.len() - 2] == s@[i - 1]);
        }
        if c != '/' && after_separator {
            count += 1;
        }
        after_separator = c == '/';
        i += 1;
    }
    proof {
        assert(s@.subrange(0, n as int) =~= s@);
    }
    count
}

} // verus!
