//! Capped substring search over a directory tree.
//!
//! The walk is an explicit-stack traversal whose file-system steps are
//! the caller's: the walk hands out the next path to examine, and the
//! caller reports back either the entries of a directory or the content
//! of a file (read through the resource pool); a path that cannot be
//! read is simply not reported and contributes no matches. Every line
//! of a reported file that contains the query yields one match with the
//! path, the 1-based line number and the trimmed line text. Collection
//! stops for good as soon as the match count exceeds [`RESULT_CAP`].

use crate::text::contains_in_range;
use crate::text::contains_sub;
use crate::text::find_line_end;
use crate::text::is_space;
use crate::text::is_space_char;
use crate::text::lemma_line_break;
use crate::text::lemma_trim_end_index;
use crate::text::lemma_trim_start_index;
use crate::text::lines_spec;
use crate::text::str_to_chars;
use crate::text::strip_cr;
use crate::text::trim_spec;
use crate::text::trim_start_spec;
use vstd::prelude::*;
use vstd::string::StrSliceExecFns;

verus! {

/// The search stops for good once more than this many matches have been
/// collected, so a result list never holds more than `RESULT_CAP + 1`
/// entries.
pub const RESULT_CAP: usize = 50;

/// Mathematical model of one match: the file's path, the 1-based line
/// number, and the trimmed text of the line.
#[verifier::ext_equal]
pub struct MatchView {
    pub path: Seq<char>,
    pub line: int,
    pub text: Seq<char>,
}

/// The matches that the lines `ls` of the file at `path` contribute,
/// numbering the first of them `lineno`.
pub open spec fn file_matches_from(
    path: Seq<char>,
    ls: Seq<Seq<char>>,
    query: Seq<char>,
    lineno: int,
) -> Seq<MatchView>
    decreases ls.len(),
{
    if ls.len() == 0 {
        Seq::empty()
    } else {
        let rest = file_matches_from(path, ls.drop_first(), query, lineno + 1);
        if contains_sub(ls[0], query) {
            seq![MatchView { path: path, line: lineno, text: trim_spec(ls[0]) }] + rest
        } else {
            rest
        }
    }
}

/// All matches of `query` in the file at `path` with content `content`.
pub open spec fn file_matches(path: Seq<char>, content: Seq<char>, query: Seq<char>) -> Seq<
    MatchView,
> {
    file_matches_from(path, lines_spec(content), query, 1)
}

/// `acc` extended with the matches of `ms` in order, stopping for good
/// the moment `acc` holds `cap1` entries.
pub open spec fn capped_extend(acc: Seq<MatchView>, ms: Seq<MatchView>, cap1: int) -> Seq<
    MatchView,
>
    decreases ms.len(),
{
    if acc.len() >= cap1 || ms.len() == 0 {
        acc
    } else {
        capped_extend(acc.push(ms[0]), ms.drop_first(), cap1)
    }
}

/// Law: the cap truncates and nothing else. Extending `acc` with `ms`
/// under the cap appends exactly the longest prefix of `ms` that keeps
/// the total at or under `cap1`: all matches when they fit, and
/// otherwise precisely the first `cap1 - acc.len()` of them.
pub proof fn lemma_capped_extend_take(acc: Seq<MatchView>, ms: Seq<MatchView>, cap1: int)
    requires
        acc.len() <= cap1,
    ensures
        ({
            let k = if acc.len() + ms.len() <= cap1 {
                ms.len() as int
            } else {
                cap1 - acc.len()
            };
            capped_extend(acc, ms, cap1) == acc + ms.take(k)
        }),
    decreases ms.len(),
{
    let k = if acc.len() + ms.len() <= cap1 {
        ms.len() as int
    } else {
        cap1 - acc.len()
    };
    if acc.len() >= cap1 || ms.len() == 0 {
        assert(acc + ms.take(0) =~= acc);
    } else {
        lemma_capped_extend_take(acc.push(ms[0]), ms.drop_first(), cap1);
        let k2 = if acc.len() + ms.len() <= cap1 {
            (ms.len() - 1) as int
        } else {
            cap1 - acc.len() - 1
        };
        assert(acc.push(ms[0]) + ms.drop_first().take(k2) =~= acc + ms.take(k));
    }
}

/// One search match: the file it was found in, the 1-based line number,
/// and the line's text with surrounding whitespace removed.
#[derive(Clone, Debug)]
pub struct SearchResult {
    pub path: String,
    pub line: usize,
    pub line_content: String,
}

impl View for SearchResult {
    type V = MatchView;

    open spec fn view(&self) -> MatchView {
        MatchView { path: self.path@, line: self.line as int, text: self.line_content@ }
    }
}

/// A search in progress: the query, the paths still to visit, and the
/// matches collected so far.
pub struct SearchWalk {
    query: String,
    stack: Vec<String>,
    results: Vec<SearchResult>,
    done: bool,
}

impl SearchWalk {
    /// The query text.
    pub closed spec fn query_view(&self) -> Seq<char> {
        self.query@
    }

    /// The paths waiting to be visited, the next one last.
    pub closed spec fn stack_view(&self) -> Seq<Seq<char>> {
        Seq::new(self.stack@.len(), |i: int| self.stack@[i]@)
    }

    /// The matches collected so far, in the order they were found.
    pub closed spec fn results_view(&self) -> Seq<MatchView> {
        Seq::new(self.results@.len(), |i: int| self.results@[i]@)
    }

    /// Whether the walk is over for good: the query was empty, or the
    /// match count went past the cap.
    pub closed spec fn is_done(&self) -> bool {
        self.done
    }

    /// The walk never holds more than `RESULT_CAP + 1` matches, and is
    /// finished exactly when it went past the cap or had nothing to
    /// look for.
    pub open spec fn inv(&self) -> bool {
        &&& self.results_view().len() <= RESULT_CAP + 1
        &&& (self.is_done() <==> (self.results_view().len() > RESULT_CAP || self.query_view().len()
            == 0))
    }

    /// Starts a search for `query` at `root_path`. An empty query
    /// finishes immediately with no matches and asks for no path at
    /// all; otherwise the root is the first path to visit.
    pub fn new(query: &str, root_path: String) -> (w: Self)
        ensures
            w.inv(),
            w.query_view() == query@,
            w.results_view() == Seq::<MatchView>::empty(),
            w.is_done() == (query@.len() == 0),
            w.stack_view() == seq![root_path@],
    {
        let empty = query.is_empty();
        let mut stack: Vec<String> = Vec::new();
        stack.push(root_path);
        let w = SearchWalk {
            query: query.to_owned(),
            stack,
            results: Vec::new(),
            done: empty,
        };
        proof {
            assert(w.results_view() =~= Seq::<MatchView>::empty());
            assert(w.stack_view() =~= seq![root_path@]);
        }
        w
    }

    /// Whether the walk is over for good.
    pub fn finished(&self) -> (b: bool)
        ensures
            b == self.is_done(),
    {
        self.done
    }

    /// Hands out the next path to visit, or `None` when the walk is
    /// finished or nothing is left to visit. Once the walk is done no
    /// path is ever handed out again, so a finished search performs no
    /// further I/O.
    pub fn next_path(&mut self) -> (r: Option<String>)
        requires
            old(self).inv(),
        ensures
            final(self).inv(),
            final(self).query_view() == old(self).query_view(),
            final(self).results_view() == old(self).results_view(),
            final(self).is_done() == old(self).is_done(),
            old(self).is_done() || old(self).stack_view().len() == 0 ==> r is None
                && final(self).stack_view() == old(self).stack_view(),
            !old(self).is_done() && old(self).stack_view().len() > 0 ==> (r matches Some(p)
                && p@ == old(self).stack_view().last()
                && final(self).stack_view() == old(self).stack_view().drop_last()),
    {
        if self.done {
            return None;
        }
        let r = self.stack.pop();
        proof {
            if old(self).stack_view().len() > 0 {
                assert(self.stack_view() =~= old(self).stack_view().drop_last());
            } else {
                assert(self.stack_view() =~= old(self).stack_view());
            }
        }
        r
    }

    /// Reports that the path just handed out was a directory with the
    /// given entries: they are pushed to be visited later, in the order
    /// the caller's listing produced them.
    pub fn on_directory(&mut self, entries: Vec<String>)
        requires
            old(self).inv(),
        ensures
            final(self).inv(),
            final(self).query_view() == old(self).query_view(),
            final(self).results_view() == old(self).results_view(),
            final(self).is_done() == old(self).is_done(),
            final(self).stack_view() == old(self).stack_view() + Seq::new(
                entries@.len(),
                |i: int| entries@[i]@,
            ),
    {
        let ghost entries_view = Seq::new(entries@.len(), |i: int| entries@[i]@);
        let mut moved = entries;
        self.stack.append(&mut moved);
        proof {
            assert(self.stack_view() =~= old(self).stack_view() + entries_view);
        }
    }

    /// Reports that the path just handed out was a file with the given
    /// content. Every line containing the query adds one match, in line
    /// order, until the count goes past the cap; then the walk stops
    /// collecting for good, mid-file if need be.
    #[verifier::rlimit(60)]
    pub fn on_file(&mut self, path: &str, content: &str)
        requires
            old(self).inv(),
            !old(self).is_done(),
            content@.len() < usize::MAX,
        ensures
            final(self).inv(),
            final(self).query_view() == old(self).query_view(),
            final(self).stack_view() == old(self).stack_view(),
            final(self).results_view() == capped_extend(
                old(self).results_view(),
                file_matches(path@, content@, old(self).query_view()),
                RESULT_CAP + 1,
            ),
            final(self).is_done() == (final(self).results_view().len() > RESULT_CAP),
    {
        let ghost q = self.query@;
        let ghost ms = file_matches(path@, content@, q);
        let ghost init_res = self.results_view();
        let ghost cap1 = RESULT_CAP as int + 1;
        let qchars = str_to_chars(self.query.as_str());
        let chars = str_to_chars(content);
        let n = chars.len();
        let mut start: usize = 0;
        let mut lineno: usize = 1;
        proof {
            assert(content@.subrange(0, n as int) =~= content@);
        }
        while start < n && !self.done
            invariant
                start <= n,
                1 <= lineno <= start + 1,
                n == content@.len() < usize::MAX,
                chars@ == content@,
                qchars@ == q,
                self.query@ == q,
                q == old(self).query_view(),
                q.len() > 0,
                self.stack_view() == old(self).stack_view(),
                self.inv(),
                init_res == old(self).results_view(),
                ms == file_matches(path@, content@, q),
                cap1 == RESULT_CAP as int + 1,
                capped_extend(init_res, ms, cap1) == capped_extend(
                    self.results_view(),
                    file_matches_from(
                        path@,
                        lines_spec(content@.subrange(start as int, n as int)),
                        q,
                        lineno as int,
                    ),
                    cap1,
                ),
            decreases n - start,
        {
            let ghost suffix = content@.subrange(start as int, n as int);
            let ghost prev_res = self.results_view();
            proof {
                lemma_line_break(suffix);
            }
            let end = find_line_end(&chars, start);
            let line_end = if end > start && chars[end - 1] == '\r' {
                end - 1
            } else {
                end
            };
            let ghost raw = suffix.subrange(0, (end - start) as int);
            let ghost line = strip_cr(raw);
            let ghost rest_lines = if end < n {
                lines_spec(content@.subrange((end + 1) as int, n as int))
            } else {
                Seq::<Seq<char>>::empty()
            };
            proof {
                assert(raw =~= content@.subrange(start as int, end as int));
                if end > start && content@[end - 1] == '\r' {
                    assert(raw.last() == content@[end - 1]);
                    assert(line =~= content@.subrange(start as int, line_end as int));
                } else {
                    assert(line =~= content@.subrange(start as int, line_end as int));
                }
                if end < n {
                    assert(suffix.subrange(
                        (end - start + 1) as int,
                        suffix.len() as int,
                    ) =~= content@.subrange((end + 1) as int, n as int));
                    assert(lines_spec(suffix) == seq![line] + rest_lines);
                    assert((seq![line] + rest_lines).drop_first() =~= rest_lines);
                } else {
                    assert(lines_spec(suffix) == seq![line]);
                    assert(seq![line].drop_first() =~= Seq::<Seq<char>>::empty());
                }
            }
            let ghost ls = lines_spec(suffix);
            let ghost rem = file_matches_from(path@, ls, q, lineno as int);
            let ghost rest_ms = file_matches_from(path@, rest_lines, q, lineno as int + 1);
            let is_match = contains_in_range(&chars, start, line_end, &qchars);
            proof {
                assert(chars@.subrange(start as int, line_end as int) == line);
                assert(is_match == contains_sub(line, q));
                if end < n {
                    assert(rem == if contains_sub(line, q) {
                        seq![
                            MatchView { path: path@, line: lineno as int, text: trim_spec(line) },
                        ] + rest_ms
                    } else {
                        rest_ms
                    });
                } else {
                    assert(rest_ms =~= Seq::<MatchView>::empty());
                    assert(rem == if contains_sub(line, q) {
                        seq![
                            MatchView { path: path@, line: lineno as int, text: trim_spec(line) },
                        ] + rest_ms
                    } else {
                        rest_ms
                    });
                }
            }
            if is_match {
                let ghost m = MatchView { path: path@, line: lineno as int, text: trim_spec(line) };
                let mut lo = start;
                while lo < line_end && is_space(chars[lo])
                    invariant
                        start <= lo <= line_end,
                        line_end <= n == chars@.len(),
                        forall|k: int| start <= k < lo ==> is_space_char(chars@[k]),
                    decreases line_end - lo,
                {
                    lo = lo + 1;
                }
                let mut hi = line_end;
                while hi > lo && is_space(chars[hi - 1])
                    invariant
                        lo <= hi <= line_end,
                        line_end <= n == chars@.len(),
                        forall|k: int| hi <= k < line_end ==> is_space_char(chars@[k]),
                    decreases hi,
                {
                    hi = hi - 1;
                }
                proof {
                    assert forall|j: int| 0 <= j < lo - start implies is_space_char(line[j]) by {
                        assert(line[j] == chars@[start + j]);
                    }
                    if lo < line_end {
                        assert(line[lo - start] == chars@[lo as int]);
                    }
                    lemma_trim_start_index(line, lo - start);
                    let ts = trim_start_spec(line);
                    assert(ts =~= content@.subrange(lo as int, line_end as int));
                    assert forall|j: int| hi - lo <= j < ts.len() implies is_space_char(
                        ts[j],
                    ) by {
                        assert(ts[j] == chars@[lo + j]);
                    }
                    if hi > lo {
                        assert(ts[hi - lo - 1] == chars@[hi - 1]);
                    }
                    lemma_trim_end_index(ts, hi - lo);
                    assert(trim_spec(line) =~= content@.subrange(lo as int, hi as int));
                }
                let text = content.substring_char(lo, hi).to_owned();
                let found = SearchResult {
                    path: path.to_owned(),
                    line: lineno,
                    line_content: text,
                };
                proof {
                    assert(found@ == m);
                }
                self.results.push(found);
                if self.results.len() > RESULT_CAP {
                    self.done = true;
                }
                proof {
                    assert(self.results_view() =~= prev_res.push(m));
                    assert(rem[0] == m);
                    assert(rem.drop_first() =~= rest_ms);
                    assert(capped_extend(prev_res, rem, cap1) == capped_extend(
                        self.results_view(),
                        rest_ms,
                        cap1,
                    ));
                }
            } else {
                proof {
                    assert(capped_extend(prev_res, rem, cap1) == capped_extend(
                        self.results_view(),
                        rest_ms,
                        cap1,
                    ));
                }
            }
            if end < n {
                start = end + 1;
                lineno = lineno + 1;
            } else {
                start = n;
                proof {
                    assert(lines_spec(content@.subrange(n as int, n as int)) =~= Seq::<
                        Seq<char>,
                    >::empty());
                }
            }
        }
        proof {
            if !self.done {
                assert(lines_spec(content@.subrange(start as int, n as int)) =~= Seq::<
                    Seq<char>,
                >::empty());
            }
        }
    }

    /// Gives up the walk and hands back the matches collected so far.
    pub fn into_results(self) -> (r: Vec<SearchResult>)
        ensures
            Seq::new(r@.len(), |i: int| r@[i]@) == self.results_view(),
    {
        self.results
    }
}

} // verus!
