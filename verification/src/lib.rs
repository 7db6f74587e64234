//! A small line-search library.
//!
//! Given a query string and the full contents of a text file, the library
//! splits the contents into lines and returns, in original order, the lines
//! that contain the query — either as an exact substring or, in the
//! case-insensitive variant, after lowercasing both sides.

use vstd::prelude::*;

pub mod config;

verus! {

/// `needle` occurs in `hay` as a contiguous subsequence.
pub open spec fn is_substring_of(needle: Seq<char>, hay: Seq<char>) -> bool {
    exists|k: int|
        0 <= k <= hay.len() - needle.len() && #[trigger] hay.subrange(k, k + needle.len())
            == needle
}

/// Index of the first line feed in `s`, or `s.len()` if there is none.
pub open spec fn first_line_break(s: Seq<char>) -> nat
    decreases s.len(),
{
    if s.len() == 0 {
        0
    } else if s[0] == '\n' {
        0
    } else {
        1 + first_line_break(s.drop_first())
    }
}

/// A line terminated by `"\r\n"` loses the `'\r'` along with the line feed.
pub open spec fn strip_carriage_return(line: Seq<char>) -> Seq<char> {
    if line.len() > 0 && line.last() == '\r' {
        line.drop_last()
    } else {
        line
    }
}

/// The lines of `s`: maximal stretches between line terminators (`"\n"` or
/// `"\r\n"`), terminators excluded; a final terminator does not add an empty
/// last line.
pub open spec fn spec_lines(s: Seq<char>) -> Seq<Seq<char>>
    decreases s.len(),
{
    if s.len() == 0 {
        Seq::empty()
    } else {
        let k = first_line_break(s) as int;
        if k >= s.len() {
            seq![s]
        } else {
            seq![strip_carriage_return(s.take(k))] + spec_lines(s.skip(k + 1))
        }
    }
}

proof fn lemma_first_line_break(s: Seq<char>)
    ensures
        first_line_break(s) <= s.len(),
        forall|m: int| 0 <= m < first_line_break(s) ==> s[m] != '\n',
        first_line_break(s) < s.len() ==> s[first_line_break(s) as int] == '\n',
    decreases s.len(),
{
    if s.len() == 0 {
    } else if s[0] == '\n' {
    } else {
        lemma_first_line_break(s.drop_first());
        assert(forall|m: int|
            0 <= m < first_line_break(s) ==> #[trigger] s[m] == if m == 0 {
                s[0]
            } else {
                s.drop_first()[m - 1]
            });
    }
}

proof fn lemma_first_line_break_at(s: Seq<char>, j: int)
    requires
        0 <= j <= s.len(),
        forall|m: int| 0 <= m < j ==> s[m] != '\n',
        j < s.len() ==> s[j] == '\n',
    ensures
        first_line_break(s) == j,
{
    lemma_first_line_break(s);
}

/// The lowercase form of `s`, as `str::to_lowercase` computes it: a pure
/// function of the characters of `s` alone.
pub uninterp spec fn lower_of(s: Seq<char>) -> Seq<char>;

/// Trusted: relies on `str::to_lowercase` from std. Its result depends only on
/// the characters of `s` (Unicode case mapping, locale-independent), so it is
/// named `lower_of`; the empty string lowercases to the empty string.
#[verifier::external_body]
pub(crate) fn lowercase(s: &str) -> (r: String)
    ensures
        r@ == lower_of(s@),
        s@.len() == 0 ==> r@.len() == 0,
{
    s.to_lowercase()
}

/// A line satisfies the case-sensitive search for `query`.
pub open spec fn line_matches(query: Seq<char>, line: Seq<char>) -> bool {
    is_substring_of(query, line)
}

/// A line satisfies the case-insensitive search for `query`: its lowercase
/// form contains the lowercase form of the query.
pub open spec fn line_matches_ci(query: Seq<char>, line: Seq<char>) -> bool {
    is_substring_of(lower_of(query), lower_of(line))
}

/// What `search` returns: the lines of `contents` that contain `query`, as the
/// ordered subsequence of `spec_lines(contents)`.
pub open spec fn spec_search(query: Seq<char>, contents: Seq<char>) -> Seq<Seq<char>> {
    spec_lines(contents).filter(|line: Seq<char>| line_matches(query, line))
}

/// What `search_case_insensitive` returns: the lines of `contents` (in their
/// original casing) whose lowercase form contains the lowercase query, as the
/// ordered subsequence of `spec_lines(contents)`.
pub open spec fn spec_search_case_insensitive(query: Seq<char>, contents: Seq<char>) -> Seq<
    Seq<char>,
> {
    spec_lines(contents).filter(|line: Seq<char>| line_matches_ci(query, line))
}

/// `needle` matches `hay` exactly at position `at`.
fn match_at(hay: &str, needle: &str, at: usize) -> (r: bool)
    requires
        at + needle@.len() <= hay@.len(),
        hay@.len() <= usize::MAX,
    ensures
        r == (hay@.subrange(at as int, at + needle@.len()) == needle@),
{
    let needle_len = needle.unicode_len();
    let mut j: usize = 0;
    while j < needle_len
        invariant
            needle_len == needle@.len(),
            at + needle_len <= hay@.len() <= usize::MAX,
            0 <= j <= needle_len,
            forall|t: int| 0 <= t < j ==> hay@[at + t] == needle@[t],
        decreases needle_len - j,
    {
        if hay.get_char(at + j) != needle.get_char(j) {
            assert(hay@.subrange(at as int, at + needle@.len())[j as int] == hay@[at + j]);
            return false;
        }
        j += 1;
    }
    assert(hay@.subrange(at as int, at + needle@.len()) =~= needle@);
    true
}

/// Whether `hay` contains `needle` as a contiguous substring; the exact
/// containment test that both search variants apply to each line.
pub fn contains_substring(hay: &str, needle: &str) -> (r: bool)
    ensures
        r == is_substring_of(needle@, hay@),
{
    let hay_len = hay.unicode_len();
    let needle_len = needle.unicode_len();
    if needle_len > hay_len {
        return false;
    }
    let mut k: usize = 0;
    loop
        invariant
            hay_len == hay@.len(),
            needle_len == needle@.len(),
            needle_len <= hay_len,
            0 <= k <= hay_len - needle_len,
            forall|m: int|
                0 <= m < k ==> #[trigger] hay@.subrange(m, m + needle@.len()) != needle@,
        decreases hay@.len() - needle@.len() - k,
    {
        if match_at(hay, needle, k) {
            assert(is_substring_of(needle@, hay@));
            return true;
        }
        if k == hay_len - needle_len {
            assert(forall|m: int|
                0 <= m <= hay@.len() - needle@.len() ==> #[trigger] hay@.subrange(
                    m,
                    m + needle@.len(),
                ) != needle@);
            return false;
        }
        k += 1;
    }
}

/// Splits `contents` into its lines, each a borrowed slice of `contents`,
/// without terminators and in original order.
pub fn split_lines<'a>(contents: &'a str) -> (r: Vec<&'a str>)
    ensures
        r.deep_view() == spec_lines(contents@),
{
    let n = contents.unicode_len();
    let mut lines: Vec<&'a str> = Vec::new();
    let mut start: usize = 0;
    let mut i: usize = 0;
    proof {
        assert(lines.deep_view() =~= Seq::<Seq<char>>::empty());
        assert(contents@.skip(0) =~= contents@);
        assert(lines.deep_view() + spec_lines(contents@) =~= spec_lines(contents@));
    }
    while i < n
        invariant
            n == contents@.len(),
            0 <= start <= i <= n,
            forall|m: int| start <= m < i ==> contents@[m] != '\n',
            spec_lines(contents@) == lines.deep_view() + spec_lines(
                contents@.skip(start as int),
            ),
        decreases n - i,
    {
        let c = contents.get_char(i);
        if c == '\n' {
            let end = if i > start && contents.get_char(i - 1) == '\r' {
                i - 1
            } else {
                i
            };
            let line = contents.substring_char(start, end);
            let ghost old_lines = lines.deep_view();
            lines.push(line);
            proof {
                let tail = contents@.skip(start as int);
                lemma_first_line_break_at(tail, i - start);
                assert(tail.take(i - start) =~= contents@.subrange(start as int, i as int));
                assert(tail.skip(i - start + 1) =~= contents@.skip(i + 1));
                assert(strip_carriage_return(tail.take(i - start)) =~= line@);
                assert(lines.deep_view() =~= old_lines + seq![line@]);
                assert((old_lines + seq![line@]) + spec_lines(contents@.skip(i + 1))
                    =~= old_lines + (seq![line@] + spec_lines(contents@.skip(i + 1))));
            }
            start = i + 1;
        }
        i += 1;
    }
    if start < n {
        let line = contents.substring_char(start, n);
        let ghost old_lines = lines.deep_view();
        lines.push(line);
        proof {
            let tail = contents@.skip(start as int);
            lemma_first_line_break_at(tail, tail.len() as int);
            assert(tail =~= line@);
            assert(lines.deep_view() =~= old_lines + seq![line@]);
        }
    } else {
        proof {
            assert(contents@.skip(start as int) =~= Seq::<char>::empty());
            assert(lines.deep_view() + spec_lines(contents@.skip(start as int))
                =~= lines.deep_view());
        }
    }
    lines
}

/// A filter that accepts every element of a sequence returns the sequence
/// itself.
proof fn lemma_filter_retains_all<A>(s: Seq<A>, pred: spec_fn(A) -> bool)
    requires
        forall|i: int| 0 <= i < s.len() ==> pred(#[trigger] s[i]),
    ensures
        s.filter(pred) == s,
    decreases s.len(),
{
    reveal(Seq::filter);
    if s.len() != 0 {
        assert(forall|i: int| 0 <= i < s.drop_last().len() ==> pred(#[trigger] s.drop_last()[i]));
        lemma_filter_retains_all(s.drop_last(), pred);
        assert(s.filter(pred) =~= s);
    } else {
        assert(s.filter(pred) =~= s);
    }
}

/// The empty query is a substring of every line.
proof fn lemma_empty_needle_is_substring(line: Seq<char>)
    ensures
        is_substring_of(Seq::<char>::empty(), line),
{
    let needle = Seq::<char>::empty();
    assert(line.subrange(0, 0 + needle.len() as int) =~= needle);
}

/// Every element of a filtered sequence is an element of the sequence it was
/// filtered from.
proof fn lemma_filter_members_come_from<A>(s: Seq<A>, pred: spec_fn(A) -> bool)
    ensures
        forall|i: int|
            0 <= i < s.filter(pred).len() ==> s.contains(#[trigger] s.filter(pred)[i]),
    decreases s.len(),
{
    reveal(Seq::filter);
    if s.len() != 0 {
        lemma_filter_members_come_from(s.drop_last(), pred);
        assert forall|i: int| 0 <= i < s.filter(pred).len() implies s.contains(
            #[trigger] s.filter(pred)[i],
        ) by {
            let kept = s.drop_last().filter(pred);
            if i < kept.len() {
                assert(s.filter(pred)[i] == kept[i]);
                let j = choose|j: int|
                    0 <= j < s.drop_last().len() && s.drop_last()[j] == kept[i];
                assert(s[j] == kept[i]);
            } else {
                assert(s.filter(pred)[i] == s.last());
                assert(s[s.len() - 1] == s.last());
            }
        }
    }
}

/// The case-sensitive search is sound and complete: every returned line
/// contains the query and is a line of the contents, and every line of the
/// contents that contains the query is returned. That the result keeps the
/// original order with no duplicates added is the definition of
/// `spec_search` as a filter of `spec_lines`.
pub proof fn lemma_search_sound_and_complete(query: Seq<char>, contents: Seq<char>)
    ensures
        forall|i: int|
            0 <= i < spec_search(query, contents).len() ==> line_matches(
                query,
                #[trigger] spec_search(query, contents)[i],
            ),
        forall|i: int|
            0 <= i < spec_search(query, contents).len() ==> spec_lines(contents).contains(
                #[trigger] spec_search(query, contents)[i],
            ),
        forall|i: int|
            0 <= i < spec_lines(contents).len() && line_matches(
                query,
                #[trigger] spec_lines(contents)[i],
            ) ==> spec_search(query, contents).contains(spec_lines(contents)[i]),
{
    broadcast use vstd::seq_lib::group_filter_ensures;

    lemma_filter_members_come_from(
        spec_lines(contents),
        |line: Seq<char>| line_matches(query, line),
    );
}

/// The case-insensitive search is sound and complete: every returned line
/// matches the query after lowercasing both sides and is a line of the
/// contents, in its original casing, and every line whose lowercase form
/// contains the lowercase query is returned. Order is kept as in
/// `lemma_search_sound_and_complete`.
pub proof fn lemma_search_case_insensitive_sound_and_complete(
    query: Seq<char>,
    contents: Seq<char>,
)
    ensures
        forall|i: int|
            0 <= i < spec_search_case_insensitive(query, contents).len() ==> line_matches_ci(
                query,
                #[trigger] spec_search_case_insensitive(query, contents)[i],
            ),
        forall|i: int|
            0 <= i < spec_search_case_insensitive(query, contents).len() ==> spec_lines(
                contents,
            ).contains(#[trigger] spec_search_case_insensitive(query, contents)[i]),
        forall|i: int|
            0 <= i < spec_lines(contents).len() && line_matches_ci(
                query,
                #[trigger] spec_lines(contents)[i],
            ) ==> spec_search_case_insensitive(query, contents).contains(
                spec_lines(contents)[i],
            ),
{
    broadcast use vstd::seq_lib::group_filter_ensures;

    lemma_filter_members_come_from(
        spec_lines(contents),
        |line: Seq<char>| line_matches_ci(query, line),
    );
}

/// An empty query matches every line, so the case-sensitive search returns
/// all lines unchanged.
pub proof fn lemma_empty_query_returns_all_lines(contents: Seq<char>)
    ensures
        spec_search(Seq::<char>::empty(), contents) == spec_lines(contents),
{
    let pred = |line: Seq<char>| line_matches(Seq::<char>::empty(), line);
    assert forall|j: int| 0 <= j < spec_lines(contents).len() implies pred(
        #[trigger] spec_lines(contents)[j],
    ) by {
        lemma_empty_needle_is_substring(spec_lines(contents)[j]);
    }
    lemma_filter_retains_all(spec_lines(contents), pred);
}

/// Returns, in original order, the lines of `contents` that contain `query`
/// as an exact, case-sensitive substring; an empty query matches every line.
pub fn search<'a>(query: &str, contents: &'a str) -> (r: Vec<&'a str>)
    ensures
        r.deep_view() == spec_search(query@, contents@),
        query@.len() == 0 ==> r.deep_view() == spec_lines(contents@),
{
    broadcast use vstd::seq_lib::group_filter_ensures;

    let ghost pred = |line: Seq<char>| line_matches(query@, line);
    let lines = split_lines(contents);
    let mut matched: Vec<&'a str> = Vec::new();
    let mut i: usize = 0;
    proof {
        assert(matched.deep_view() =~= lines.deep_view().take(0).filter(pred));
    }
    while i < lines.len()
        invariant
            lines.deep_view() == spec_lines(contents@),
            0 <= i <= lines@.len(),
            matched.deep_view() == lines.deep_view().take(i as int).filter(pred),
            pred == (|line: Seq<char>| line_matches(query@, line)),
        decreases lines@.len() - i,
    {
        let line = lines[i];
        let ghost old_matched = matched.deep_view();
        let ghost dv = lines.deep_view();
        let hit = contains_substring(line, query);
        if hit {
            matched.push(line);
        }
        proof {
            assert(dv[i as int] == line@);
            assert(dv.take(i + 1) =~= dv.take(i as int) + seq![dv[i as int]]);
            Seq::filter_distributes_over_add(dv.take(i as int), seq![dv[i as int]], pred);
            reveal_with_fuel(Seq::filter, 2);
            assert(seq![dv[i as int]].drop_last() =~= Seq::<Seq<char>>::empty());
            if hit {
                assert(matched.deep_view() =~= old_matched + seq![line@]);
            } else {
                assert(seq![dv[i as int]].filter(pred) =~= Seq::<Seq<char>>::empty());
                assert(matched.deep_view() =~= old_matched + seq![dv[i as int]].filter(pred));
            }
        }
        i += 1;
    }
    proof {
        assert(lines.deep_view().take(lines@.len() as int) =~= lines.deep_view());
        if query@.len() == 0 {
            assert forall|j: int| 0 <= j < spec_lines(contents@).len() implies pred(
                #[trigger] spec_lines(contents@)[j],
            ) by {
                lemma_empty_needle_is_substring(spec_lines(contents@)[j]);
                assert(query@ =~= Seq::<char>::empty());
            }
            lemma_filter_retains_all(spec_lines(contents@), pred);
        }
    }
    matched
}

/// Returns, in original order and original casing, the lines of `contents`
/// whose lowercase form contains the lowercase form of `query`; an empty
/// query matches every line.
pub fn search_case_insensitive<'a>(query: &str, contents: &'a str) -> (r: Vec<&'a str>)
    ensures
        r.deep_view() == spec_search_case_insensitive(query@, contents@),
        query@.len() == 0 ==> r.deep_view() == spec_lines(contents@),
{
    broadcast use vstd::seq_lib::group_filter_ensures;

    let ghost pred = |line: Seq<char>| line_matches_ci(query@, line);
    let lowered_query = lowercase(query);
    let lines = split_lines(contents);
    let mut matched: Vec<&'a str> = Vec::new();
    let mut i: usize = 0;
    proof {
        assert(matched.deep_view() =~= lines.deep_view().take(0).filter(pred));
    }
    while i < lines.len()
        invariant
            lines.deep_view() == spec_lines(contents@),
            lowered_query@ == lower_of(query@),
            0 <= i <= lines@.len(),
            matched.deep_view() == lines.deep_view().take(i as int).filter(pred),
            pred == (|line: Seq<char>| line_matches_ci(query@, line)),
        decreases lines@.len() - i,
    {
        let line = lines[i];
        let ghost old_matched = matched.deep_view();
        let ghost dv = lines.deep_view();
        let lowered_line = lowercase(line);
        let hit = contains_substring(lowered_line.as_str(), lowered_query.as_str());
        if hit {
            matched.push(line);
        }
        proof {
            assert(dv[i as int] == line@);
            assert(hit == pred(dv[i as int]));
            assert(dv.take(i + 1) =~= dv.take(i as int) + seq![dv[i as int]]);
            Seq::filter_distributes_over_add(dv.take(i as int), seq![dv[i as int]], pred);
            reveal_with_fuel(Seq::filter, 2);
            assert(seq![dv[i as int]].drop_last() =~= Seq::<Seq<char>>::empty());
            if hit {
                assert(matched.deep_view() =~= old_matched + seq![line@]);
            } else {
                assert(seq![dv[i as int]].filter(pred) =~= Seq::<Seq<char>>::empty());
                assert(matched.deep_view() =~= old_matched + seq![dv[i as int]].filter(pred));
            }
        }
        i += 1;
    }
    proof {
        assert(lines.deep_view().take(lines@.len() as int) =~= lines.deep_view());
        if query@.len() == 0 {
            assert(lower_of(query@) =~= Seq::<char>::empty());
            assert forall|j: int| 0 <= j < spec_lines(contents@).len() implies pred(
                #[trigger] spec_lines(contents@)[j],
            ) by {
                lemma_empty_needle_is_substring(lower_of(spec_lines(contents@)[j]));
            }
            lemma_filter_retains_all(spec_lines(contents@), pred);
        }
    }
    matched
}

/// The filtering step of a whole run: applies the variant that the
/// configuration selects to the given contents.
pub fn run_search<'a>(configuration: &config::Config, contents: &'a str) -> (r: Vec<&'a str>)
    ensures
        configuration.spec_ignore_case() ==> r.deep_view() == spec_search_case_insensitive(
            configuration.spec_query(),
            contents@,
        ),
        !configuration.spec_ignore_case() ==> r.deep_view() == spec_search(
            configuration.spec_query(),
            contents@,
        ),
{
    if configuration.ignore_case() {
        search_case_insensitive(configuration.query(), contents)
    } else {
        search(configuration.query(), contents)
    }
}

} // verus!
