//! Building a tag system from indentation-structured taxonomy source text.
//!
//! The text is read line by line. A line's depth is the number of leading
//! indentation units (a tab, or four spaces). A tag stack holds the category
//! chain: a line indented past the current chain is malformed; a line
//! whose trimmed text starts with a double marker (`>>`) assigns the current
//! stack to an item in the general table, a single marker (`>`) in the
//! instance table, and any other non-empty line is a category node, pushed
//! onto the stack and declared in `all_tags`.

use vstd::prelude::*;
use crate::dict::{Dict, lemma_insert_mapped, seq_insert};
use crate::strutil::{chars_to_string, str_chars, vec_contains_string};
use crate::tags::{TagSystem, assignments_view};

verus! {

/// Why taxonomy source text was rejected.
#[derive(Clone, Copy, Debug, PartialEq, Eq)]
pub enum TaxonomyError {
    /// A line is indented past the current category chain; holds the line's
    /// index, counting from zero.
    BadIndent(usize),
}

/// The lines of a text, split at every newline.
pub open spec fn spec_lines(text: Seq<char>) -> Seq<Seq<char>>
    decreases text.len(),
{
    if text.len() == 0 {
        seq![Seq::<char>::empty()]
    } else {
        let rest = spec_lines(text.drop_first());
        if text[0] == '\n' {
            seq![Seq::<char>::empty()] + rest
        } else {
            seq![seq![text[0]] + rest[0]] + rest.drop_first()
        }
    }
}

pub proof fn lemma_lines_nonempty(text: Seq<char>)
    ensures
        spec_lines(text).len() >= 1,
    decreases text.len(),
{
    if text.len() > 0 {
        lemma_lines_nonempty(text.drop_first());
    }
}

/// Splitting takes the text up to the first newline as the head line.
proof fn lemma_lines_head(s: Seq<char>, k: int)
    requires
        0 <= k <= s.len(),
        forall|i: int| 0 <= i < k ==> s[i] != '\n',
        k < s.len() ==> s[k] == '\n',
    ensures
        k == s.len() ==> spec_lines(s) =~= seq![s],
        k < s.len() ==> spec_lines(s) =~= seq![s.take(k)] + spec_lines(s.skip(k + 1)),
    decreases k,
{
    lemma_lines_nonempty(s);
    if k == 0 {
        if s.len() == 0 {
            assert(s =~= Seq::<char>::empty());
            assert(spec_lines(s) =~= seq![s]);
        } else {
            assert(s[0] == '\n');
            assert(s.drop_first() =~= s.skip(1));
            assert(s.take(0) =~= Seq::<char>::empty());
            assert(spec_lines(s) =~= seq![s.take(0)] + spec_lines(s.skip(1)));
        }
    } else {
        let d = s.drop_first();
        lemma_lines_nonempty(d);
        assert(forall|i: int| 0 <= i < k - 1 ==> d[i] == s[i + 1] && d[i] != '\n');
        lemma_lines_head(d, k - 1);
        if k == s.len() {
            assert(spec_lines(d) =~= seq![d]);
            assert(spec_lines(s) =~= seq![seq![s[0]] + d]);
            assert(seq![s[0]] + d =~= s);
        } else {
            assert(d[k - 1] == s[k]);
            assert(spec_lines(d) =~= seq![d.take(k - 1)] + spec_lines(d.skip(k)));
            assert(spec_lines(s) =~= seq![seq![s[0]] + d.take(k - 1)] + spec_lines(d.skip(k)));
            assert(seq![s[0]] + d.take(k - 1) =~= s.take(k));
            assert(d.skip(k) =~= s.skip(k + 1));
        }
    }
}

/// Copies a span of characters.
fn subvec_chars(v: &Vec<char>, from: usize, to: usize) -> (r: Vec<char>)
    requires
        from <= to <= v@.len(),
    ensures
        r@ == v@.subrange(from as int, to as int),
{
    let mut out: Vec<char> = Vec::new();
    let mut i: usize = from;
    while i < to
        invariant
            from <= i <= to <= v@.len(),
            out@ =~= v@.subrange(from as int, i as int),
        decreases to - i,
    {
        out.push(v[i]);
        proof {
            assert(out@ =~= v@.subrange(from as int, i as int + 1));
        }
        i = i + 1;
    }
    proof {
        assert(out@ =~= v@.subrange(from as int, to as int));
    }
    out
}

/// Splits the characters from a position into lines.
fn split_from(chars: &Vec<char>, from: usize) -> (r: Vec<Vec<char>>)
    requires
        from <= chars@.len(),
    ensures
        r.deep_view() == spec_lines(chars@.skip(from as int)),
    decreases chars@.len() - from,
{
    let ghost tail = chars@.skip(from as int);
    let mut j: usize = from;
    while j < chars.len() && chars[j] != '\n'
        invariant
            from <= j <= chars@.len(),
            forall|i: int| from <= i < j ==> chars@[i] != '\n',
        decreases chars@.len() - j,
    {
        j = j + 1;
    }
    proof {
        assert(forall|i: int| 0 <= i < j - from ==> tail[i] == chars@[i + from] && tail[i] != '\n');
        if j < chars@.len() {
            assert(tail[j - from] == chars@[j as int]);
        }
        lemma_lines_head(tail, j - from);
    }
    let line = subvec_chars(chars, from, j);
    proof {
        assert(line@ =~= tail.take(j - from));
        assert(line.deep_view() =~= line@);
    }
    if j == chars.len() {
        let mut out: Vec<Vec<char>> = Vec::new();
        out.push(line);
        proof {
            assert(tail.take(j - from) =~= tail);
            assert(out.deep_view() =~= seq![tail]);
        }
        out
    } else {
        let mut rest = split_from(chars, j + 1);
        proof {
            assert(chars@.skip(j + 1) =~= tail.skip(j - from + 1));
        }
        let mut out: Vec<Vec<char>> = Vec::new();
        out.push(line);
        let ghost rview = rest.deep_view();
        out.append(&mut rest);
        proof {
            assert(out.deep_view() =~= seq![tail.take(j - from)] + rview);
        }
        out
    }
}

/// How many leading indentation units (a tab, or four spaces) a line has.
pub open spec fn spec_indent(line: Seq<char>) -> int
    decreases line.len(),
{
    if line.len() >= 1 && line[0] == '\t' {
        1 + spec_indent(line.skip(1))
    } else if line.len() >= 4 && line[0] == ' ' && line[1] == ' ' && line[2] == ' ' && line[3]
        == ' ' {
        1 + spec_indent(line.skip(4))
    } else {
        0
    }
}

/// The line after its indentation units.
pub open spec fn spec_after_indent(line: Seq<char>) -> Seq<char>
    decreases line.len(),
{
    if line.len() >= 1 && line[0] == '\t' {
        spec_after_indent(line.skip(1))
    } else if line.len() >= 4 && line[0] == ' ' && line[1] == ' ' && line[2] == ' ' && line[3]
        == ' ' {
        spec_after_indent(line.skip(4))
    } else {
        line
    }
}

/// Counts a line's indentation units; returns the count and the offset of
/// the first character after them.
fn indent_of(line: &Vec<char>, p: usize) -> (r: (usize, usize))
    requires
        p <= line@.len(),
    ensures
        r.0 as int == spec_indent(line@.skip(p as int)),
        r.0 <= line@.len() - p,
        p <= r.1 <= line@.len(),
        line@.skip(r.1 as int) == spec_after_indent(line@.skip(p as int)),
    decreases line@.len() - p,
{
    if p < line.len() && line[p] == '\t' {
        proof {
            assert(line@.skip(p as int).skip(1) =~= line@.skip(p as int + 1));
        }
        let (u, off) = indent_of(line, p + 1);
        (u + 1, off)
    } else if p < line.len() && line.len() - p >= 4 && line[p] == ' ' && line[p + 1] == ' '
        && line[p + 2] == ' ' && line[p + 3] == ' ' {
        proof {
            assert(line@.skip(p as int).skip(4) =~= line@.skip(p as int + 4));
        }
        let (u, off) = indent_of(line, p + 4);
        (u + 1, off)
    } else {
        (0, p)
    }
}

/// Whitespace that trimming removes at either end of a line.
pub open spec fn is_space(c: char) -> bool {
    c == ' ' || c == '\t' || c == '\r'
}

pub open spec fn spec_trim_start(s: Seq<char>) -> Seq<char>
    decreases s.len(),
{
    if s.len() > 0 && is_space(s[0]) {
        spec_trim_start(s.drop_first())
    } else {
        s
    }
}

pub open spec fn spec_trim_end(s: Seq<char>) -> Seq<char>
    decreases s.len(),
{
    if s.len() > 0 && is_space(s.last()) {
        spec_trim_end(s.drop_last())
    } else {
        s
    }
}

/// A line's text with the surrounding whitespace removed.
pub open spec fn spec_trim(s: Seq<char>) -> Seq<char> {
    spec_trim_end(spec_trim_start(s))
}

/// The bounds of the trimmed text within a span.
fn trim_bounds(line: &Vec<char>, from: usize, to: usize) -> (r: (usize, usize))
    requires
        from <= to <= line@.len(),
    ensures
        from <= r.0 <= r.1 <= to,
        line@.subrange(r.0 as int, r.1 as int) == spec_trim(
            line@.subrange(from as int, to as int),
        ),
{
    let mut a: usize = from;
    while a < to && (line[a] == ' ' || line[a] == '\t' || line[a] == '\r')
        invariant
            from <= a <= to <= line@.len(),
            spec_trim_start(line@.subrange(from as int, to as int)) == spec_trim_start(
                line@.subrange(a as int, to as int),
            ),
        decreases to - a,
    {
        proof {
            assert(line@.subrange(a as int, to as int)[0] == line@[a as int]);
            assert(line@.subrange(a as int, to as int).drop_first() =~= line@.subrange(
                a as int + 1,
                to as int,
            ));
        }
        a = a + 1;
    }
    proof {
        assert(spec_trim_start(line@.subrange(a as int, to as int)) == line@.subrange(
            a as int,
            to as int,
        ));
    }
    let mut b: usize = to;
    while b > a && (line[b - 1] == ' ' || line[b - 1] == '\t' || line[b - 1] == '\r')
        invariant
            from <= a <= b <= to <= line@.len(),
            spec_trim_start(line@.subrange(from as int, to as int)) == line@.subrange(
                a as int,
                to as int,
            ),
            spec_trim_end(line@.subrange(a as int, to as int)) == spec_trim_end(
                line@.subrange(a as int, b as int),
            ),
        decreases b,
    {
        proof {
            assert(line@.subrange(a as int, b as int).last() == line@[b - 1]);
            assert(line@.subrange(a as int, b as int).drop_last() =~= line@.subrange(
                a as int,
                b as int - 1,
            ));
        }
        b = b - 1;
    }
    proof {
        assert(spec_trim_end(line@.subrange(a as int, b as int)) == line@.subrange(
            a as int,
            b as int,
        ));
    }
    (a, b)
}

/// The parser's running state and tables.
pub struct TaxonomyOutcome {
    /// The category chain at the current point.
    pub stack: Seq<Seq<char>>,
    /// Every declared category name, first occurrence each.
    pub all: Seq<Seq<char>>,
    /// The general-category item assignments.
    pub general: Seq<(Seq<char>, Seq<Seq<char>>)>,
    /// The instance item assignments.
    pub instance: Seq<(Seq<char>, Seq<Seq<char>>)>,
}

pub open spec fn spec_init() -> TaxonomyOutcome {
    TaxonomyOutcome {
        stack: Seq::empty(),
        all: Seq::empty(),
        general: Seq::empty(),
        instance: Seq::empty(),
    }
}

/// Processes one line: an empty line changes nothing; a line indented past
/// one step below its parent fails; the stack is cut to the line's depth,
/// then a `>>` line assigns the stack in the general table, a `>` line in
/// the instance table, and any other line pushes a declared category.
pub open spec fn spec_step(st: TaxonomyOutcome, line: Seq<char>, lineno: int) -> Result<
    TaxonomyOutcome,
    TaxonomyError,
> {
    let d = spec_indent(line);
    let c = spec_trim(spec_after_indent(line));
    if c.len() == 0 {
        Ok(st)
    } else if d > st.stack.len() {
        Err(TaxonomyError::BadIndent(lineno as usize))
    } else {
        let stack2 = st.stack.take(d);
        if c.len() >= 2 && c[0] == '>' && c[1] == '>' {
            Ok(
                TaxonomyOutcome {
                    stack: stack2,
                    all: st.all,
                    general: seq_insert(st.general, spec_trim(c.skip(2)), stack2),
                    instance: st.instance,
                },
            )
        } else if c[0] == '>' {
            Ok(
                TaxonomyOutcome {
                    stack: stack2,
                    all: st.all,
                    general: st.general,
                    instance: seq_insert(st.instance, spec_trim(c.skip(1)), stack2),
                },
            )
        } else {
            Ok(
                TaxonomyOutcome {
                    stack: stack2.push(c),
                    all: if st.all.contains(c) {
                        st.all
                    } else {
                        st.all.push(c)
                    },
                    general: st.general,
                    instance: st.instance,
                },
            )
        }
    }
}

/// Processes the lines in order; the first failure wins.
pub open spec fn spec_parse(lines: Seq<Seq<char>>) -> Result<TaxonomyOutcome, TaxonomyError>
    decreases lines.len(),
{
    if lines.len() == 0 {
        Ok(spec_init())
    } else {
        match spec_parse(lines.drop_last()) {
            Err(e) => Err(e),
            Ok(st) => spec_step(st, lines.last(), lines.len() - 1),
        }
    }
}

/// What parsing a whole taxonomy text yields.
pub open spec fn spec_taxonomy(text: Seq<char>) -> Result<TaxonomyOutcome, TaxonomyError> {
    spec_parse(spec_lines(text))
}

proof fn lemma_parse_err_persists(lines: Seq<Seq<char>>, i: int)
    requires
        0 <= i <= lines.len(),
        spec_parse(lines.take(i)) is Err,
    ensures
        spec_parse(lines) == spec_parse(lines.take(i)),
    decreases lines.len() - i,
{
    if i < lines.len() {
        assert(lines.take(i + 1).drop_last() =~= lines.take(i));
        lemma_parse_err_persists(lines, i + 1);
    } else {
        assert(lines.take(i) =~= lines);
    }
}

/// Copies a category chain.
fn clone_strings(v: &Vec<String>) -> (r: Vec<String>)
    ensures
        r.deep_view() == v.deep_view(),
        r@.len() == v@.len(),
{
    let mut out: Vec<String> = Vec::new();
    let mut i: usize = 0;
    while i < v.len()
        invariant
            0 <= i <= v@.len(),
            out@.len() == i,
            forall|k: int| 0 <= k < i ==> out@[k]@ == v@[k]@,
        decreases v@.len() - i,
    {
        out.push(v[i].clone());
        i = i + 1;
    }
    proof {
        assert(out.deep_view() =~= v.deep_view());
    }
    out
}

impl TagSystem {
    /// Builds the taxonomy and the items' tag paths from
    /// indentation-structured taxonomy source text.
    #[verifier::rlimit(100)]
    pub fn from_source(text: &str) -> (r: Result<TagSystem, TaxonomyError>)
        ensures
            r matches Ok(ts) ==> (spec_taxonomy(text@) matches Ok(o) && ts.wf()
                && ts.all_tags.deep_view() == o.all && assignments_view(
                ts.general_tags.view_seq(),
            ) == o.general && assignments_view(ts.instance_tags.view_seq()) == o.instance),
            r matches Err(e) ==> spec_taxonomy(text@) == Err::<TaxonomyOutcome, TaxonomyError>(e),
    {
        let chars = str_chars(text);
        let lines = split_from(&chars, 0);
        let ghost lv = lines.deep_view();
        proof {
            assert(chars@.skip(0) =~= chars@);
            assert(lv == spec_lines(text@));
        }
        let mut stack: Vec<String> = Vec::new();
        let mut all: Vec<String> = Vec::new();
        let mut general: Dict<Vec<String>> = Dict::new();
        let mut instance: Dict<Vec<String>> = Dict::new();
        let mut i: usize = 0;
        proof {
            assert(lv.take(0) =~= Seq::<Seq<char>>::empty());
            assert(assignments_view(general.view_seq()) =~= Seq::<
                (Seq<char>, Seq<Seq<char>>),
            >::empty());
            assert(assignments_view(instance.view_seq()) =~= Seq::<
                (Seq<char>, Seq<Seq<char>>),
            >::empty());
            assert(stack.deep_view() =~= Seq::<Seq<char>>::empty());
            assert(all.deep_view() =~= Seq::<Seq<char>>::empty());
        }
        while i < lines.len()
            invariant
                0 <= i <= lines@.len(),
                lv == lines.deep_view(),
                lv == spec_lines(text@),
                lv.len() == lines@.len(),
                general.wf(),
                instance.wf(),
                spec_parse(lv.take(i as int)) matches Ok(o) && stack.deep_view() == o.stack
                    && all.deep_view() == o.all && assignments_view(general.view_seq())
                    == o.general && assignments_view(instance.view_seq()) == o.instance,
            decreases lines@.len() - i,
        {
            let ghost o = spec_parse(lv.take(i as int))->Ok_0;
            proof {
                assert(lv.take(i as int + 1).drop_last() =~= lv.take(i as int));
                assert(lv.take(i as int + 1).last() == lv[i as int]);
                assert(lv[i as int] =~= lines@[i as int]@);
            }
            let line = &lines[i];
            let (d, off) = indent_of(line, 0);
            proof {
                assert(line@.skip(0) =~= line@);
            }
            let (a, b) = trim_bounds(line, off, line.len());
            proof {
                assert(line@.subrange(off as int, line@.len() as int) =~= line@.skip(off as int));
            }
            let ghost c = spec_trim(spec_after_indent(lv[i as int]));
            proof {
                assert(c == line@.subrange(a as int, b as int));
            }
            if b > a {
                if d > stack.len() {
                    proof {
                        assert(spec_step(o, lv[i as int], i as int) == Err::<
                            TaxonomyOutcome,
                            TaxonomyError,
                        >(TaxonomyError::BadIndent(i)));
                        lemma_parse_err_persists(lv, i as int + 1);
                    }
                    return Err(TaxonomyError::BadIndent(i));
                }
                let ghost sprev = stack.deep_view();
                stack.truncate(d);
                proof {
                    assert(stack.deep_view() =~= sprev.take(d as int));
                }
                if line[a] == '>' && b - a >= 2 && line[a + 1] == '>' {
                    let (x, y) = trim_bounds(line, a + 2, b);
                    proof {
                        assert(c.skip(2) =~= line@.subrange(a as int + 2, b as int));
                    }
                    let item = chars_to_string(line, x, y);
                    let path = clone_strings(&stack);
                    proof {
                        lemma_insert_mapped(
                            general.view_seq(),
                            |v: Vec<String>| v.deep_view(),
                            item@,
                            path,
                        );
                        assert(assignments_view(general.view_seq()) =~= general.view_seq().map(
                            |k: int, p: (Seq<char>, Vec<String>)| (p.0, (|v: Vec<String>| v.deep_view())(p.1)),
                        ));
                    }
                    general.insert(item, path);
                    proof {
                        assert(assignments_view(general.view_seq()) =~= general.view_seq().map(
                            |k: int, p: (Seq<char>, Vec<String>)| (p.0, (|v: Vec<String>| v.deep_view())(p.1)),
                        ));
                    }
                } else if line[a] == '>' {
                    let (x, y) = trim_bounds(line, a + 1, b);
                    proof {
                        assert(c.skip(1) =~= line@.subrange(a as int + 1, b as int));
                    }
                    let item = chars_to_string(line, x, y);
                    let path = clone_strings(&stack);
                    proof {
                        lemma_insert_mapped(
                            instance.view_seq(),
                            |v: Vec<String>| v.deep_view(),
                            item@,
                            path,
                        );
                        assert(assignments_view(instance.view_seq()) =~= instance.view_seq().map(
                            |k: int, p: (Seq<char>, Vec<String>)| (p.0, (|v: Vec<String>| v.deep_view())(p.1)),
                        ));
                    }
                    instance.insert(item, path);
                    proof {
                        assert(assignments_view(instance.view_seq()) =~= instance.view_seq().map(
                            |k: int, p: (Seq<char>, Vec<String>)| (p.0, (|v: Vec<String>| v.deep_view())(p.1)),
                        ));
                    }
                } else {
                    let name = chars_to_string(line, a, b);
                    if !vec_contains_string(&all, name.as_str()) {
                        let ghost aprev = all.deep_view();
                        all.push(name.clone());
                        proof {
                            assert(all.deep_view() =~= aprev.push(c));
                        }
                    }
                    let ghost stprev = stack.deep_view();
                    stack.push(name);
                    proof {
                        assert(stack.deep_view() =~= stprev.push(c));
                    }
                }
            }
            i = i + 1;
        }
        proof {
            assert(lv.take(lines@.len() as int) =~= lv);
        }
        Ok(
            TagSystem {
                all_tags: all,
                general_tags: general,
                instance_tags: instance,
            },
        )
    }
}

} // verus!
