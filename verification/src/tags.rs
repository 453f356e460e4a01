//! The tag system: a hierarchical category taxonomy with per-item tag-path
//! assignments, and a read-only consistency lint.
//!
//! The lint reports, as advisory text, every tag that an item references but
//! that the taxonomy does not declare, and every declared tag that no item
//! references. Lint findings never alter behaviour.

use vstd::prelude::*;
use vstd::string::StringExecFns;
use crate::dict::Dict;
use crate::strutil::vec_contains_string;

verus! {

/// The taxonomy and the items' tag paths. `all_tags` lists the declared
/// category names; the two tables map an item to its tag path, an ordered
/// list of category names from the root.
#[derive(Debug, PartialEq, Eq)]
pub struct TagSystem {
    pub all_tags: Vec<String>,
    pub general_tags: Dict<Vec<String>>,
    pub instance_tags: Dict<Vec<String>>,
}

impl TagSystem {
    pub open spec fn wf(&self) -> bool {
        self.general_tags.wf() && self.instance_tags.wf()
    }

    /// Builds the tag system from snapshot rows whose item keys, being those
    /// of maps, are unique.
    pub fn new_from_parts(
        all_tags: Vec<String>,
        general: Vec<(String, Vec<String>)>,
        instance: Vec<(String, Vec<String>)>,
    ) -> (r: TagSystem)
        requires
            forall|a: int, b: int|
                0 <= a < b < general@.len() ==> general@[a].0@ != general@[b].0@,
            forall|a: int, b: int|
                0 <= a < b < instance@.len() ==> instance@[a].0@ != instance@[b].0@,
        ensures
            r.wf(),
            r.all_tags == all_tags,
            r.general_tags.view_seq().len() == general@.len(),
            forall|k: int|
                0 <= k < general@.len() ==> #[trigger] r.general_tags.view_seq()[k] == (
                    general@[k].0@,
                    general@[k].1,
                ),
            r.instance_tags.view_seq().len() == instance@.len(),
            forall|k: int|
                0 <= k < instance@.len() ==> #[trigger] r.instance_tags.view_seq()[k] == (
                    instance@[k].0@,
                    instance@[k].1,
                ),
    {
        TagSystem {
            all_tags,
            general_tags: assignment_table(general),
            instance_tags: assignment_table(instance),
        }
    }
}

/// Builds one assignment table from rows with unique keys.
fn assignment_table(rows: Vec<(String, Vec<String>)>) -> (r: Dict<Vec<String>>)
    requires
        forall|a: int, b: int| 0 <= a < b < rows@.len() ==> rows@[a].0@ != rows@[b].0@,
    ensures
        r.wf(),
        r.view_seq().len() == rows@.len(),
        forall|k: int|
            0 <= k < rows@.len() ==> #[trigger] r.view_seq()[k] == (rows@[k].0@, rows@[k].1),
{
    let ghost rv = rows@;
    let mut rows = rows;
    let mut out: Dict<Vec<String>> = Dict::new();
    let n = rows.len();
    let mut i: usize = 0;
    while i < n
        invariant
            0 <= i <= n,
            n == rv.len(),
            rows@ =~= rv.subrange(i as int, n as int),
            forall|a: int, b: int| 0 <= a < b < rv.len() ==> rv[a].0@ != rv[b].0@,
            out.wf(),
            out.view_seq().len() == i,
            forall|k: int| 0 <= k < i ==> #[trigger] out.view_seq()[k] == (rv[k].0@, rv[k].1),
        decreases n - i,
    {
        let ghost before = out.view_seq();
        let (key, val) = rows.remove(0);
        proof {
            assert(rows@ =~= rv.subrange(i as int + 1, n as int));
            assert(forall|k: int| 0 <= k < i ==> before[k].0 != rv[i as int].0@);
            crate::dict::lemma_insert_appends(before, rv[i as int].0@, rv[i as int].1);
        }
        out.insert(key, val);
        i = i + 1;
    }
    out
}

/// The assignment tables with every string read as its characters.
pub open spec fn assignments_view(s: Seq<(Seq<char>, Vec<String>)>) -> Seq<
    (Seq<char>, Seq<Seq<char>>),
> {
    s.map(|i: int, p: (Seq<char>, Vec<String>)| (p.0, p.1.deep_view()))
}

/// Every tag referenced by any assignment, in table order then path order.
pub open spec fn flat_tags(inst: Seq<(Seq<char>, Seq<Seq<char>>)>) -> Seq<Seq<char>>
    decreases inst.len(),
{
    if inst.len() == 0 {
        Seq::empty()
    } else {
        flat_tags(inst.drop_last()) + inst.last().1
    }
}

/// The referenced tags that are not declared, first occurrence only, in
/// reference order.
pub open spec fn extra_tags(flat: Seq<Seq<char>>, all: Seq<Seq<char>>) -> Seq<Seq<char>>
    decreases flat.len(),
{
    if flat.len() == 0 {
        Seq::empty()
    } else {
        let prefix = extra_tags(flat.drop_last(), all);
        let t = flat.last();
        if !all.contains(t) && !prefix.contains(t) {
            prefix.push(t)
        } else {
            prefix
        }
    }
}

/// The declared tags that no assignment references, in declaration order.
pub open spec fn unused_tags(all: Seq<Seq<char>>, flat: Seq<Seq<char>>) -> Seq<Seq<char>>
    decreases all.len(),
{
    if all.len() == 0 {
        Seq::empty()
    } else {
        let prefix = unused_tags(all.drop_last(), flat);
        let t = all.last();
        if !flat.contains(t) {
            prefix.push(t)
        } else {
            prefix
        }
    }
}

/// The concern text for a referenced but undeclared tag.
pub open spec fn spec_used_msg(t: Seq<char>) -> Seq<char> {
    "Tag '"@ + t + "' was used, but does not appear in the `all_tags` list."@
}

/// The concern text for a declared but unreferenced tag.
pub open spec fn spec_unused_msg(t: Seq<char>) -> Seq<char> {
    "Tag '"@ + t + "' appears in the `all_tags` list, but isn't used anywhere."@
}

/// Every lint concern, in order: first the undeclared-but-used tags (first
/// occurrence each, in reference order), then the declared-but-unused tags
/// (in declaration order).
pub open spec fn spec_lint(all: Seq<Seq<char>>, inst: Seq<(Seq<char>, Seq<Seq<char>>)>) -> Seq<
    Seq<char>,
> {
    let flat = flat_tags(inst);
    extra_tags(flat, all).map(|i: int, t: Seq<char>| spec_used_msg(t)) + unused_tags(
        all,
        flat,
    ).map(|i: int, t: Seq<char>| spec_unused_msg(t))
}

fn used_msg(t: &String) -> (r: String)
    ensures
        r@ == spec_used_msg(t@),
{
    let mut s = String::from_str("Tag '");
    s.append(t.as_str());
    s.append("' was used, but does not appear in the `all_tags` list.");
    s
}

fn unused_msg(t: &String) -> (r: String)
    ensures
        r@ == spec_unused_msg(t@),
{
    let mut s = String::from_str("Tag '");
    s.append(t.as_str());
    s.append("' appears in the `all_tags` list, but isn't used anywhere.");
    s
}

impl TagSystem {
    /// Collects every referenced tag, in table order then path order.
    fn flatten_instance_tags(&self) -> (r: Vec<String>)
        ensures
            r.deep_view() == flat_tags(assignments_view(self.instance_tags.view_seq())),
    {
        let ghost iview = assignments_view(self.instance_tags.view_seq());
        let mut flat: Vec<String> = Vec::new();
        let n = self.instance_tags.len();
        let mut i: usize = 0;
        while i < n
            invariant
                0 <= i <= n,
                n == self.instance_tags.spec_len(),
                iview == assignments_view(self.instance_tags.view_seq()),
                iview.len() == n,
                forall|k: int|
                    0 <= k < n ==> #[trigger] iview[k] == (
                        self.instance_tags.view_seq()[k].0,
                        self.instance_tags.view_seq()[k].1.deep_view(),
                    ),
                flat.deep_view() =~= flat_tags(iview.take(i as int)),
            decreases n - i,
        {
            let list = self.instance_tags.val_at(i);
            let ghost lview = list.deep_view();
            let mut j: usize = 0;
            while j < list.len()
                invariant
                    0 <= j <= list@.len(),
                    lview == list.deep_view(),
                    lview.len() == list@.len(),
                    forall|k: int| 0 <= k < lview.len() ==> lview[k] == list@[k]@,
                    flat.deep_view() =~= flat_tags(iview.take(i as int)) + lview.take(j as int),
                decreases list@.len() - j,
            {
                let ghost fprev = flat.deep_view();
                flat.push(list[j].clone());
                proof {
                    assert(lview.take(j as int + 1) =~= lview.take(j as int).push(
                        lview[j as int],
                    ));
                    assert(flat.deep_view() =~= fprev.push(lview[j as int]));
                    assert(flat.deep_view() =~= flat_tags(iview.take(i as int)) + lview.take(
                        j as int + 1,
                    ));
                }
                j = j + 1;
            }
            proof {
                assert(lview.take(list@.len() as int) =~= lview);
                assert(iview.take(i as int + 1).drop_last() =~= iview.take(i as int));
                assert(iview.take(i as int + 1).last() == iview[i as int]);
                assert(iview[i as int].1 == lview);
                assert(flat_tags(iview.take(i as int + 1)) =~= flat_tags(iview.take(i as int))
                    + lview);
            }
            i = i + 1;
        }
        proof {
            assert(iview.take(n as int) =~= iview);
        }
        flat
    }

    /// The read-only consistency lint: advisory concern texts, never fatal.
    pub fn lint(&self) -> (r: Vec<String>)
        ensures
            r.deep_view() == spec_lint(
                self.all_tags.deep_view(),
                assignments_view(self.instance_tags.view_seq()),
            ),
    {
        let ghost all = self.all_tags.deep_view();
        let flat = self.flatten_instance_tags();
        let ghost fview = flat.deep_view();

        let mut extra: Vec<String> = Vec::new();
        let mut i: usize = 0;
        while i < flat.len()
            invariant
                0 <= i <= flat@.len(),
                all == self.all_tags.deep_view(),
                fview == flat.deep_view(),
                fview.len() == flat@.len(),
                forall|k: int| 0 <= k < fview.len() ==> fview[k] == flat@[k]@,
                extra.deep_view() =~= extra_tags(fview.take(i as int), all),
            decreases flat@.len() - i,
        {
            proof {
                assert(fview.take(i as int + 1).drop_last() =~= fview.take(i as int));
                assert(fview.take(i as int + 1).last() == fview[i as int]);
            }
            if !vec_contains_string(&self.all_tags, flat[i].as_str()) && !vec_contains_string(
                &extra,
                flat[i].as_str(),
            ) {
                extra.push(flat[i].clone());
            }
            i = i + 1;
        }
        proof {
            assert(fview.take(flat@.len() as int) =~= fview);
        }

        let mut concerns: Vec<String> = Vec::new();
        let ghost eview = extra.deep_view();
        let mut i: usize = 0;
        while i < extra.len()
            invariant
                0 <= i <= extra@.len(),
                eview == extra.deep_view(),
                eview.len() == extra@.len(),
                forall|k: int| 0 <= k < eview.len() ==> eview[k] == extra@[k]@,
                concerns.deep_view() =~= eview.take(i as int).map(
                    |k: int, t: Seq<char>| spec_used_msg(t),
                ),
            decreases extra@.len() - i,
        {
            concerns.push(used_msg(&extra[i]));
            proof {
                assert(eview.take(i as int + 1) =~= eview.take(i as int).push(eview[i as int]));
                assert(eview.take(i as int + 1).map(|k: int, t: Seq<char>| spec_used_msg(t))
                    =~= eview.take(i as int).map(|k: int, t: Seq<char>| spec_used_msg(t)).push(
                    spec_used_msg(eview[i as int]),
                ));
            }
            i = i + 1;
        }
        proof {
            assert(eview.take(extra@.len() as int) =~= eview);
        }

        let mut unused: Vec<String> = Vec::new();
        let mut i: usize = 0;
        while i < self.all_tags.len()
            invariant
                0 <= i <= self.all_tags@.len(),
                all == self.all_tags.deep_view(),
                fview == flat.deep_view(),
                all.len() == self.all_tags@.len(),
                forall|k: int| 0 <= k < all.len() ==> all[k] == self.all_tags@[k]@,
                unused.deep_view() =~= unused_tags(all.take(i as int), fview),
            decreases self.all_tags@.len() - i,
        {
            proof {
                assert(all.take(i as int + 1).drop_last() =~= all.take(i as int));
                assert(all.take(i as int + 1).last() == all[i as int]);
            }
            if !vec_contains_string(&flat, self.all_tags[i].as_str()) {
                unused.push(self.all_tags[i].clone());
            }
            i = i + 1;
        }
        proof {
            assert(all.take(self.all_tags@.len() as int) =~= all);
        }

        let ghost uview = unused.deep_view();
        let ghost concerns_before = concerns.deep_view();
        let mut i: usize = 0;
        while i < unused.len()
            invariant
                0 <= i <= unused@.len(),
                uview == unused.deep_view(),
                uview.len() == unused@.len(),
                forall|k: int| 0 <= k < uview.len() ==> uview[k] == unused@[k]@,
                concerns.deep_view() =~= concerns_before + uview.take(i as int).map(
                    |k: int, t: Seq<char>| spec_unused_msg(t),
                ),
            decreases unused@.len() - i,
        {
            let ghost cprev = concerns.deep_view();
            concerns.push(unused_msg(&unused[i]));
            proof {
                assert(concerns.deep_view() =~= cprev.push(spec_unused_msg(uview[i as int])));
                assert(uview.take(i as int + 1) =~= uview.take(i as int).push(uview[i as int]));
                assert(uview.take(i as int + 1).map(|k: int, t: Seq<char>| spec_unused_msg(t))
                    =~= uview.take(i as int).map(|k: int, t: Seq<char>| spec_unused_msg(t)).push(
                    spec_unused_msg(uview[i as int]),
                ));
            }
            i = i + 1;
        }
        proof {
            assert(uview.take(unused@.len() as int) =~= uview);
            assert(concerns.deep_view() =~= spec_lint(
                all,
                assignments_view(self.instance_tags.view_seq()),
            ));
        }
        concerns
    }
}

} // verus!
