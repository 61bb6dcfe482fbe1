//! Summary extraction from Markdown text.
//!
//! A post's summary is the first three non-blank lines of its content,
//! joined by single spaces and truncated to a character budget with a
//! marker when cut. Rendering itself is deferred to the front end.

use vstd::prelude::*;
use vstd::string::StringExecFns;
use crate::text::{chars_of, is_space, is_whitespace_char, push_char, spec_trim, trim_chars};

verus! {

/// A carriage return left at the end of a line by a CRLF ending.
pub open spec fn spec_strip_cr(l: Seq<char>) -> Seq<char> {
    if l.len() > 0 && l.last() == '\r' {
        l.drop_last()
    } else {
        l
    }
}

/// Line-splitting state after reading `s`: the completed lines and the
/// partial line still open.
pub open spec fn spec_line_state(s: Seq<char>) -> (Seq<Seq<char>>, Seq<char>)
    decreases s.len(),
{
    if s.len() == 0 {
        (Seq::empty(), Seq::empty())
    } else {
        let (done, cur) = spec_line_state(s.drop_last());
        let c = s.last();
        if c == '\n' {
            (done.push(spec_strip_cr(cur)), Seq::empty())
        } else {
            (done, cur.push(c))
        }
    }
}

/// The lines of `s`: split at LF, with the CR of a CRLF ending stripped
/// and no phantom line after a trailing newline.
pub open spec fn spec_lines(s: Seq<char>) -> Seq<Seq<char>> {
    let (done, cur) = spec_line_state(s);
    if cur.len() == 0 {
        done
    } else {
        done.push(cur)
    }
}

/// A line that trims to nothing.
pub open spec fn spec_is_blank(l: Seq<char>) -> bool {
    forall|i: int| 0 <= i < l.len() ==> is_space(#[trigger] l[i])
}

/// Lines joined by single spaces.
pub open spec fn spec_join_sp(ls: Seq<Seq<char>>) -> Seq<char>
    decreases ls.len(),
{
    if ls.len() == 0 {
        Seq::empty()
    } else if ls.len() == 1 {
        ls[0]
    } else {
        spec_join_sp(ls.drop_last()) + seq![' '] + ls.last()
    }
}

/// The predicate selecting the lines a summary keeps.
pub open spec fn spec_nonblank() -> spec_fn(Seq<char>) -> bool {
    |l: Seq<char>| !spec_is_blank(l)
}

/// The first three non-blank lines of the trimmed text.
pub open spec fn spec_summary_lines(s: Seq<char>) -> Seq<Seq<char>> {
    let picked = spec_lines(spec_trim(s)).filter(spec_nonblank());
    if picked.len() <= 3 {
        picked
    } else {
        picked.take(3)
    }
}

/// What [`extract_summary`] returns: the joined summary, cut to the
/// character budget with a trailing marker when it runs over.
pub open spec fn spec_extract_summary(s: Seq<char>, max_length: int) -> Seq<char> {
    let joined = spec_join_sp(spec_summary_lines(s));
    if joined.len() <= max_length {
        joined
    } else {
        joined.take(max_length - 3) + "..."@
    }
}

/// Whether every character of the line is whitespace.
fn line_is_blank(l: &Vec<char>) -> (r: bool)
    ensures
        r == spec_is_blank(l@),
{
    let mut i: usize = 0;
    while i < l.len()
        invariant
            i <= l.len(),
            forall|j: int| 0 <= j < i ==> is_space(#[trigger] l@[j]),
        decreases l.len() - i,
    {
        if !is_whitespace_char(l[i]) {
            return false;
        }
        i = i + 1;
    }
    true
}

/// The lines of `cs`, split as the line-state machine reads them.
fn split_lines(cs: &Vec<char>) -> (r: Vec<Vec<char>>)
    ensures
        r@.map_values(|l: Vec<char>| l@) == spec_lines(cs@),
{
    let mut done: Vec<Vec<char>> = Vec::new();
    let mut cur: Vec<char> = Vec::new();
    let mut i: usize = 0;
    while i < cs.len()
        invariant
            i <= cs.len(),
            (done@.map_values(|l: Vec<char>| l@), cur@) == spec_line_state(cs@.take(i as int)),
        decreases cs.len() - i,
    {
        proof {
            assert(cs@.take(i + 1 as int).drop_last() =~= cs@.take(i as int));
        }
        let c = cs[i];
        if c == '\n' {
            if cur.len() > 0 && cur[cur.len() - 1] == '\r' {
                cur.pop();
            }
            done.push(cur);
            cur = Vec::new();
        } else {
            cur.push(c);
        }
        proof {
            assert(done@.map_values(|l: Vec<char>| l@) =~= spec_line_state(
                cs@.take(i + 1 as int),
            ).0);
        }
        i = i + 1;
    }
    proof {
        assert(cs@.take(cs@.len() as int) =~= cs@);
    }
    if cur.len() > 0 {
        done.push(cur);
        proof {
            assert(done@.map_values(|l: Vec<char>| l@) =~= spec_lines(cs@));
        }
    }
    done
}

/// Extracts a summary from Markdown text: the first three non-blank
/// lines, joined by spaces, truncated to `max_length` characters with a
/// `...` marker when cut.
pub fn extract_summary(markdown: &str, max_length: usize) -> (r: String)
    requires
        max_length >= 3,
    ensures
        r@ == spec_extract_summary(markdown@, max_length as int),
{
    let cs = chars_of(markdown);
    let trimmed = trim_chars(&cs);
    let lines = split_lines(&trimmed);
    let ghost line_views = lines@.map_values(|l: Vec<char>| l@);
    let mut joined: Vec<char> = Vec::new();
    let mut picked: usize = 0;
    let mut j: usize = 0;
    while j < lines.len()
        invariant
            j <= lines.len(),
            line_views == lines@.map_values(|l: Vec<char>| l@),
            picked <= 3,
            ({
                let flt = line_views.take(j as int).filter(spec_nonblank());
                &&& picked == if flt.len() <= 3 {
                    flt.len() as int
                } else {
                    3
                }
                &&& joined@ == spec_join_sp(
                    if flt.len() <= 3 {
                        flt
                    } else {
                        flt.take(3)
                    },
                )
            }),
        decreases lines.len() - j,
    {
        let ghost flt_before = line_views.take(j as int).filter(spec_nonblank());
        let ghost flt_after = line_views.take(j + 1 as int).filter(spec_nonblank());
        proof {
            reveal(Seq::filter);
            assert(line_views.take(j + 1 as int).drop_last() =~= line_views.take(j as int));
            assert(line_views.take(j + 1 as int).last() == line_views[j as int]);
            assert(flt_after == if spec_nonblank()(line_views[j as int]) {
                flt_before.push(line_views[j as int])
            } else {
                flt_before
            });
        }
        let blank = line_is_blank(&lines[j]);
        proof {
            assert(lines[j as int]@ == line_views[j as int]);
        }
        if !blank && picked < 3 {
            if picked > 0 {
                joined.push(' ');
            }
            let mut t: usize = 0;
            let ghost before = joined@;
            while t < lines[j].len()
                invariant
                    j < lines@.len(),
                    t <= lines[j as int].len(),
                    joined@ == before + lines[j as int]@.take(t as int),
                decreases lines[j as int].len() - t,
            {
                joined.push(lines[j][t]);
                proof {
                    assert(joined@ =~= before + lines[j as int]@.take(t + 1 as int));
                }
                t = t + 1;
            }
            proof {
                assert(lines[j as int]@.take(lines[j as int]@.len() as int) =~= lines[
                    j as int
                ]@);
                assert(flt_after == flt_before.push(line_views[j as int]));
                assert(flt_after.drop_last() =~= flt_before);
                if picked == 0 {
                    assert(joined@ =~= line_views[j as int]);
                    assert(joined@ == spec_join_sp(flt_after));
                } else {
                    assert(joined@ =~= spec_join_sp(flt_before) + seq![' '] + line_views[
                        j as int
                    ]);
                    assert(joined@ == spec_join_sp(flt_after));
                }
            }
            picked = picked + 1;
        } else {
            proof {
                if !blank {
                    assert(flt_before.len() >= 3);
                    assert(flt_after.take(3) =~= flt_before.take(3));
                    if flt_before.len() == 3 {
                        assert(flt_before.take(3) =~= flt_before);
                    }
                } else {
                    assert(flt_after == flt_before);
                }
            }
        }
        j = j + 1;
    }
    proof {
        assert(line_views.take(line_views.len() as int) =~= line_views);
    }
    let mut out = String::new();
    let limit = if joined.len() <= max_length {
        joined.len()
    } else {
        max_length - 3
    };
    let mut i: usize = 0;
    while i < limit
        invariant
            i <= limit <= joined.len(),
            out@ == joined@.take(i as int),
        decreases limit - i,
    {
        push_char(&mut out, joined[i]);
        proof {
            assert(out@ =~= joined@.take(i + 1 as int));
        }
        i = i + 1;
    }
    if joined.len() <= max_length {
        proof {
            assert(joined@.take(joined@.len() as int) =~= joined@);
        }
        out
    } else {
        let marked = out.concat("...");
        marked
    }
}

} // verus!
