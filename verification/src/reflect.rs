//! Rewriting reflection metadata text: stale explorer-order lines are
//! dropped, and each class entry whose name has an instance tag path gains a
//! fresh explorer-order line derived from its first tag's position in the
//! declared tag list.
//!
//! The text is scanned line by line with a three-state machine: a class item
//! opener arms the scanner, a properties opener inside it arms the name
//! search, and a name line, when its item is tagged, is followed by a new
//! order line. Every kept input line passes through unchanged.

use vstd::prelude::*;
use vstd::string::{StrSliceExecFns, StringExecFns};
use crate::dict::seq_lookup;
use crate::strutil::{chars_to_string, spec_nat_string, str_chars, str_eq, usize_to_string};
use crate::tags::{TagSystem, assignments_view};

verus! {

/// The first position where the pattern occurs, if it occurs.
pub open spec fn first_match(s: Seq<char>, sub: Seq<char>) -> Option<int>
    decreases s.len(),
{
    if sub.len() == 0 {
        Some(0)
    } else if s.len() < sub.len() {
        None
    } else if s.take(sub.len() as int) == sub {
        Some(0)
    } else {
        match first_match(s.drop_first(), sub) {
            Some(i) => Some(i + 1),
            None => None,
        }
    }
}

/// The pattern occurs at a position.
pub open spec fn match_at(s: Seq<char>, sub: Seq<char>, i: int) -> bool {
    0 <= i && i + sub.len() <= s.len() && s.subrange(i, i + sub.len()) == sub
}

/// `first_match` finds the least position where the pattern occurs.
pub proof fn lemma_first_match(s: Seq<char>, sub: Seq<char>)
    ensures
        match first_match(s, sub) {
            Some(i) => match_at(s, sub, i) && forall|k: int| 0 <= k < i ==> !match_at(s, sub, k),
            None => forall|k: int| !match_at(s, sub, k),
        },
    decreases s.len(),
{
    if sub.len() == 0 {
        assert(s.subrange(0, 0) =~= sub);
    } else if s.len() < sub.len() {
        assert forall|k: int| !match_at(s, sub, k) by {}
    } else if s.take(sub.len() as int) == sub {
        assert(s.subrange(0, sub.len() as int) =~= s.take(sub.len() as int));
    } else {
        let d = s.drop_first();
        lemma_first_match(d, sub);
        assert(s.subrange(0, sub.len() as int) =~= s.take(sub.len() as int));
        assert(!match_at(s, sub, 0));
        assert forall|k: int| 1 <= k implies (match_at(s, sub, k) <==> match_at(d, sub, k
            - 1)) by {
            if k + sub.len() <= s.len() {
                assert(s.subrange(k, k + sub.len()) =~= d.subrange(k - 1, k - 1 + sub.len()));
                if match_at(d, sub, k - 1) {
                    assert(s.subrange(k, k + sub.len()) == sub);
                }
            }
        }
        match first_match(d, sub) {
            Some(i) => {
                assert(match_at(d, sub, i));
                assert(match_at(s, sub, i + 1));
            },
            None => {},
        }
    }
}

/// Finds the first occurrence of a pattern in a character span.
fn find_sub(hay: &Vec<char>, sub: &Vec<char>) -> (r: Option<usize>)
    ensures
        match r {
            Some(i) => first_match(hay@, sub@) == Some(i as int),
            None => first_match(hay@, sub@) is None,
        },
{
    proof {
        lemma_first_match(hay@, sub@);
    }
    if sub.len() > hay.len() {
        return None;
    }
    let mut i: usize = 0;
    while i <= hay.len() - sub.len()
        invariant
            sub@.len() <= hay@.len(),
            0 <= i <= hay@.len() - sub@.len() + 1,
            forall|k: int| 0 <= k < i ==> !match_at(hay@, sub@, k),
        decreases hay@.len() + 1 - sub@.len() - i,
    {
        let mut j: usize = 0;
        let mut matched = true;
        while matched && j < sub.len()
            invariant
                0 <= j <= sub@.len(),
                i + sub@.len() <= hay@.len(),
                hay@.len() <= usize::MAX,
                matched ==> (forall|k: int| 0 <= k < j ==> hay@[i + k] == sub@[k]),
                !matched ==> exists|k: int| 0 <= k < sub@.len() && hay@[i + k] != sub@[k],
            decreases sub@.len() - j, (if matched { 1int } else { 0int }),
        {
            if hay[i + j] != sub[j] {
                proof {
                    assert(hay@[i as int + j as int] != sub@[j as int]);
                }
                matched = false;
            } else {
                j = j + 1;
            }
        }
        if matched {
            proof {
                assert(hay@.subrange(i as int, i as int + sub@.len() as int) =~= sub@);
                assert(match_at(hay@, sub@, i as int));
                lemma_first_match(hay@, sub@);
            }
            return Some(i);
        }
        proof {
            let k = choose|k: int| 0 <= k < sub@.len() && hay@[i + k] != sub@[k];
            assert(hay@.subrange(i as int, i as int + sub@.len() as int)[k] == hay@[i + k]);
            assert(!match_at(hay@, sub@, i as int));
        }
        i = i + 1;
    }
    proof {
        assert(forall|k: int| !match_at(hay@, sub@, k));
    }
    None
}

/// The first position of a name in the declared tag list, if declared.
pub open spec fn first_index(all: Seq<Seq<char>>, t: Seq<char>) -> Option<int>
    decreases all.len(),
{
    if all.len() == 0 {
        None
    } else if all[0] == t {
        Some(0)
    } else {
        match first_index(all.drop_first(), t) {
            Some(i) => Some(i + 1),
            None => None,
        }
    }
}

proof fn lemma_first_index(all: Seq<Seq<char>>, t: Seq<char>)
    ensures
        match first_index(all, t) {
            Some(i) => 0 <= i < all.len() && all[i] == t && forall|k: int|
                0 <= k < i ==> all[k] != t,
            None => forall|k: int| 0 <= k < all.len() ==> all[k] != t,
        },
    decreases all.len(),
{
    if all.len() > 0 && all[0] != t {
        let d = all.drop_first();
        lemma_first_index(d, t);
        assert(forall|k: int| 0 <= k < d.len() ==> d[k] == all[k + 1]);
        assert(forall|k: int| 1 <= k < all.len() ==> all[k] == d[k - 1]);
    }
}

/// Finds a tag's first position in the declared tag list.
fn index_of_tag(all: &Vec<String>, t: &String) -> (r: Option<usize>)
    ensures
        match r {
            Some(i) => first_index(all.deep_view(), t@) == Some(i as int),
            None => first_index(all.deep_view(), t@) is None,
        },
{
    proof {
        lemma_first_index(all.deep_view(), t@);
    }
    let mut i: usize = 0;
    while i < all.len()
        invariant
            0 <= i <= all@.len(),
            all.deep_view().len() == all@.len(),
            forall|k: int| 0 <= k < all@.len() ==> all.deep_view()[k] == all@[k]@,
            forall|k: int| 0 <= k < i ==> all.deep_view()[k] != t@,
        decreases all@.len() - i,
    {
        if str_eq(all[i].as_str(), t.as_str()) {
            proof {
                lemma_first_index(all.deep_view(), t@);
                assert(all.deep_view()[i as int] == t@);
                let fi = first_index(all.deep_view(), t@);
                if fi is Some {
                    let m = fi->Some_0;
                    if m < i {
                        assert(all.deep_view()[m] != t@);
                    }
                    if m > i {
                        assert(all.deep_view()[i as int] != t@);
                    }
                } else {
                    assert(all.deep_view()[i as int] != t@);
                }
            }
            return Some(i);
        }
        i = i + 1;
    }
    None
}

/// The scanner's position within a class entry.
#[derive(Clone, Copy, Debug, PartialEq, Eq)]
pub enum ReflectState {
    Ready,
    InItem,
    InProperties,
}

/// The marker that opens a class entry.
pub open spec fn item_marker() -> Seq<char> {
    "<Item class=\"ReflectionMetadataClass\">"@
}

/// The marker that opens an entry's properties.
pub open spec fn props_marker() -> Seq<char> {
    "<Properties>"@
}

/// The opening of a name property.
pub open spec fn name_open() -> Seq<char> {
    "<string name=\"Name\">"@
}

/// The closing of a string property.
pub open spec fn name_close() -> Seq<char> {
    "</string>"@
}

/// The marker of a stale explorer-order line, which is dropped.
pub open spec fn order_marker() -> Seq<char> {
    "<string name=\"ExplorerOrder\">"@
}

/// The fresh order line for a class at a declared-tag position.
pub open spec fn spec_order_line_text(ord: int) -> Seq<char> {
    "<string name=\"ExplorerOrder\">"@ + spec_nat_string(ord) + "</string>"@
}

/// The extra line a name line earns: when the line carries a name property,
/// the named item has an instance tag path, and the path's first tag is
/// declared, a fresh order line with that tag's position.
pub open spec fn spec_order_line(
    line: Seq<char>,
    all: Seq<Seq<char>>,
    inst: Seq<(Seq<char>, Seq<Seq<char>>)>,
) -> Seq<Seq<char>> {
    match first_match(line, name_open()) {
        None => Seq::empty(),
        Some(open_at) => {
            let start = open_at + name_open().len();
            match first_match(line, name_close()) {
                None => Seq::empty(),
                Some(close_at) => if close_at < start {
                    Seq::empty()
                } else {
                    let name = line.subrange(start, close_at);
                    match seq_lookup(inst, name) {
                        None => Seq::empty(),
                        Some(tags) => if tags.len() == 0 {
                            Seq::empty()
                        } else {
                            match first_index(all, tags[0]) {
                                None => Seq::empty(),
                                Some(ord) => seq![spec_order_line_text(ord)],
                            }
                        },
                    }
                },
            }
        },
    }
}

/// One scanner step: which lines the input line emits, and the next state.
pub open spec fn spec_reflect_step(
    st: ReflectState,
    line: Seq<char>,
    all: Seq<Seq<char>>,
    inst: Seq<(Seq<char>, Seq<Seq<char>>)>,
) -> (ReflectState, Seq<Seq<char>>) {
    match st {
        ReflectState::Ready => (
            if first_match(line, item_marker()) is Some {
                ReflectState::InItem
            } else {
                ReflectState::Ready
            },
            seq![line],
        ),
        ReflectState::InItem => (
            if first_match(line, props_marker()) is Some {
                ReflectState::InProperties
            } else {
                ReflectState::Ready
            },
            seq![line],
        ),
        ReflectState::InProperties => (
            ReflectState::Ready,
            seq![line] + spec_order_line(line, all, inst),
        ),
    }
}

/// Runs the scanner over the kept lines, from the start.
pub open spec fn spec_reflect_run(
    lines: Seq<Seq<char>>,
    all: Seq<Seq<char>>,
    inst: Seq<(Seq<char>, Seq<Seq<char>>)>,
) -> (ReflectState, Seq<Seq<char>>)
    decreases lines.len(),
{
    if lines.len() == 0 {
        (ReflectState::Ready, Seq::empty())
    } else {
        let prev = spec_reflect_run(lines.drop_last(), all, inst);
        let step = spec_reflect_step(prev.0, lines.last(), all, inst);
        (step.0, prev.1 + step.1)
    }
}

/// The lines that stay: those without a stale explorer-order marker.
pub open spec fn spec_keep(lines: Seq<Seq<char>>) -> Seq<Seq<char>>
    decreases lines.len(),
{
    if lines.len() == 0 {
        Seq::empty()
    } else {
        spec_keep(lines.drop_last()) + (if first_match(lines.last(), order_marker()) is Some {
            Seq::empty()
        } else {
            seq![lines.last()]
        })
    }
}

/// What rewriting the reflection text yields: stale order lines dropped,
/// every other line kept in order, and a fresh order line after each name
/// line of a tagged class.
pub open spec fn spec_reflection(
    lines: Seq<Seq<char>>,
    all: Seq<Seq<char>>,
    inst: Seq<(Seq<char>, Seq<Seq<char>>)>,
) -> Seq<Seq<char>> {
    spec_reflect_run(spec_keep(lines), all, inst).1
}

/// Builds the fresh order line.
fn order_line_text(ord: usize) -> (r: String)
    ensures
        r@ == spec_order_line_text(ord as int),
{
    let mut s = String::from_str("<string name=\"ExplorerOrder\">");
    s.append(usize_to_string(ord).as_str());
    s.append("</string>");
    s
}

/// The extra line a kept line earns, if any.
fn order_line_for(line: &Vec<char>, tag_system: &TagSystem) -> (r: Option<String>)
    requires
        tag_system.wf(),
    ensures
        match r {
            Some(s) => spec_order_line(
                line@,
                tag_system.all_tags.deep_view(),
                assignments_view(tag_system.instance_tags.view_seq()),
            ) == seq![s@],
            None => spec_order_line(
                line@,
                tag_system.all_tags.deep_view(),
                assignments_view(tag_system.instance_tags.view_seq()),
            ) == Seq::<Seq<char>>::empty(),
        },
{
    let open_pat = str_chars("<string name=\"Name\">");
    let close_pat = str_chars("</string>");
    let open_at = match find_sub(line, &open_pat) {
        Some(i) => i,
        None => {
            return None;
        },
    };
    proof {
        lemma_first_match(line@, open_pat@);
    }
    let line_len = line.len();
    proof {
        assert(open_at + open_pat@.len() <= line_len);
    }
    let start = open_at + open_pat.len();
    let close_at = match find_sub(line, &close_pat) {
        Some(i) => i,
        None => {
            return None;
        },
    };
    if close_at < start {
        return None;
    }
    proof {
        lemma_first_match(line@, close_pat@);
    }
    let name = chars_to_string(line, start, close_at);
    proof {
        lemma_lookup_assignments(tag_system.instance_tags.view_seq(), name@);
    }
    let tags = match tag_system.instance_tags.get(name.as_str()) {
        Some(t) => t,
        None => {
            return None;
        },
    };
    if tags.len() == 0 {
        return None;
    }
    let ord = match index_of_tag(&tag_system.all_tags, &tags[0]) {
        Some(o) => o,
        None => {
            return None;
        },
    };
    Some(order_line_text(ord))
}

/// Instance lookups agree between the table and its value view.
proof fn lemma_lookup_assignments(s: Seq<(Seq<char>, Vec<String>)>, k: Seq<char>)
    ensures
        seq_lookup(assignments_view(s), k) == match seq_lookup(s, k) {
            Some(v) => Some(v.deep_view()),
            None => None::<Seq<Seq<char>>>,
        },
{
    crate::dict::lemma_lookup_mapped(s, |v: Vec<String>| v.deep_view(), k);
    assert(assignments_view(s) =~= s.map(
        |i: int, p: (Seq<char>, Vec<String>)| (p.0, (|v: Vec<String>| v.deep_view())(p.1)),
    ));
}

/// Rewrites reflection metadata lines: drops stale explorer-order lines and
/// inserts a fresh one after each name line of a tagged class entry.
pub fn rewrite_reflection(lines: &Vec<String>, tag_system: &TagSystem) -> (r: Vec<String>)
    requires
        tag_system.wf(),
    ensures
        r.deep_view() == spec_reflection(
            lines.deep_view(),
            tag_system.all_tags.deep_view(),
            assignments_view(tag_system.instance_tags.view_seq()),
        ),
{
    let ghost all = tag_system.all_tags.deep_view();
    let ghost inst = assignments_view(tag_system.instance_tags.view_seq());
    let ghost lv = lines.deep_view();
    let order_pat = str_chars("<string name=\"ExplorerOrder\">");
    let item_pat = str_chars("<Item class=\"ReflectionMetadataClass\">");
    let props_pat = str_chars("<Properties>");
    let mut out: Vec<String> = Vec::new();
    let mut state = ReflectState::Ready;
    let mut i: usize = 0;
    proof {
        assert(lv.take(0) =~= Seq::<Seq<char>>::empty());
        assert(spec_keep(lv.take(0)) =~= Seq::<Seq<char>>::empty());
        assert(out.deep_view() =~= Seq::<Seq<char>>::empty());
    }
    while i < lines.len()
        invariant
            0 <= i <= lines@.len(),
            lv == lines.deep_view(),
            lv.len() == lines@.len(),
            forall|k: int| 0 <= k < lv.len() ==> lv[k] == lines@[k]@,
            order_pat@ == order_marker(),
            item_pat@ == item_marker(),
            props_pat@ == props_marker(),
            tag_system.wf(),
            all == tag_system.all_tags.deep_view(),
            inst == assignments_view(tag_system.instance_tags.view_seq()),
            spec_reflect_run(spec_keep(lv.take(i as int)), all, inst) == (
                state,
                out.deep_view(),
            ),
        decreases lines@.len() - i,
    {
        proof {
            assert(lv.take(i as int + 1).drop_last() =~= lv.take(i as int));
            assert(lv.take(i as int + 1).last() == lv[i as int]);
        }
        let chars = str_chars(lines[i].as_str());
        proof {
            assert(chars@ == lv[i as int]);
        }
        let ghost kept = spec_keep(lv.take(i as int));
        if find_sub(&chars, &order_pat).is_none() {
            proof {
                assert(spec_keep(lv.take(i as int + 1)) =~= kept.push(lv[i as int]));
                assert(spec_keep(lv.take(i as int + 1)).drop_last() =~= kept);
                assert(spec_keep(lv.take(i as int + 1)).last() == lv[i as int]);
            }
            let ghost oprev = out.deep_view();
            let next_state: ReflectState;
            match state {
                ReflectState::Ready => {
                    next_state = if find_sub(&chars, &item_pat).is_some() {
                        ReflectState::InItem
                    } else {
                        ReflectState::Ready
                    };
                    out.push(lines[i].clone());
                    proof {
                        assert(out.deep_view() =~= oprev.push(lv[i as int]));
                        assert(out.deep_view() =~= oprev + seq![lv[i as int]]);
                    }
                },
                ReflectState::InItem => {
                    next_state = if find_sub(&chars, &props_pat).is_some() {
                        ReflectState::InProperties
                    } else {
                        ReflectState::Ready
                    };
                    out.push(lines[i].clone());
                    proof {
                        assert(out.deep_view() =~= oprev.push(lv[i as int]));
                        assert(out.deep_view() =~= oprev + seq![lv[i as int]]);
                    }
                },
                ReflectState::InProperties => {
                    next_state = ReflectState::Ready;
                    out.push(lines[i].clone());
                    match order_line_for(&chars, tag_system) {
                        Some(extra) => {
                            let ghost eview = extra@;
                            out.push(extra);
                            proof {
                                assert(out.deep_view() =~= oprev.push(lv[i as int]).push(eview));
                                assert(out.deep_view() =~= oprev + (seq![lv[i as int]]
                                    + spec_order_line(lv[i as int], all, inst)));
                            }
                        },
                        None => {
                            proof {
                                assert(out.deep_view() =~= oprev.push(lv[i as int]));
                                assert(out.deep_view() =~= oprev + (seq![lv[i as int]]
                                    + spec_order_line(lv[i as int], all, inst)));
                            }
                        },
                    }
                },
            }
            state = next_state;
        } else {
            proof {
                assert(spec_keep(lv.take(i as int + 1)) =~= kept);
            }
        }
        i = i + 1;
    }
    proof {
        assert(lv.take(lines@.len() as int) =~= lv);
    }
    out
}

} // verus!
