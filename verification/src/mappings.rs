//! The mapping registry: per-category item-to-icon tables and per-category
//! output scale lists, plus the diagnostic list of class names an API dump
//! reports.

use vstd::prelude::*;
use crate::dict::{Dict, lemma_insert_appends};
use crate::strutil::vec_contains_string;

verus! {

/// One output resolution: the entry's size in logical pixels and the scale
/// factor in whole percent.
#[derive(Clone, Copy, Debug, PartialEq, Eq)]
pub struct IconScaling {
    pub size: u32,
    pub scale_percent: u32,
}

impl IconScaling {
    /// The pixel side of the rendered image: the size times the factor,
    /// rounded to the nearest whole pixel (halves up), saturating at the
    /// largest representable value.
    pub open spec fn spec_pixel_size(&self) -> u32 {
        let v = ((self.size as int) * (self.scale_percent as int) + 50) / 100;
        if v > u32::MAX {
            u32::MAX
        } else {
            v as u32
        }
    }

    pub fn pixel_size(&self) -> (r: u32)
        ensures
            r == self.spec_pixel_size(),
    {
        proof {
            let x = self.size as int;
            let y = self.scale_percent as int;
            assert(x * y <= 0xFFFF_FFFF * 0xFFFF_FFFF) by (nonlinear_arith)
                requires
                    0 <= x <= 0xFFFF_FFFF,
                    0 <= y <= 0xFFFF_FFFF,
            ;
        }
        let v: u64 = ((self.size as u64) * (self.scale_percent as u64) + 50) / 100;
        if v > 0xFFFF_FFFFu64 {
            u32::MAX
        } else {
            v as u32
        }
    }
}

/// The per-category tables: `icons` maps an item file name to an icon name,
/// per category; `scaling` lists the output resolutions of each category.
pub struct IconMappings {
    pub scaling: Dict<Vec<IconScaling>>,
    pub icons: Dict<Dict<String>>,
}

impl IconMappings {
    pub open spec fn wf(&self) -> bool {
        self.scaling.wf() && self.icons.wf() && forall|k: int|
            0 <= k < self.icons.view_seq().len() ==> (#[trigger] self.icons.view_seq()[k]).1.wf()
    }

    /// Builds the registry from configuration rows whose keys, being those
    /// of maps, are unique.
    pub fn new_from_json(
        scaling: Vec<(String, Vec<IconScaling>)>,
        icons: Vec<(String, Vec<(String, String)>)>,
    ) -> (r: IconMappings)
        requires
            forall|a: int, b: int|
                0 <= a < b < scaling@.len() ==> scaling@[a].0@ != scaling@[b].0@,
            forall|a: int, b: int| 0 <= a < b < icons@.len() ==> icons@[a].0@ != icons@[b].0@,
            forall|k: int, a: int, b: int|
                0 <= k < icons@.len() && 0 <= a < b < icons@[k].1@.len()
                    ==> #[trigger] icons@[k].1@[a].0@ != #[trigger] icons@[k].1@[b].0@,
        ensures
            r.wf(),
            r.scaling.view_seq().len() == scaling@.len(),
            forall|k: int|
                0 <= k < scaling@.len() ==> #[trigger] r.scaling.view_seq()[k] == (
                    scaling@[k].0@,
                    scaling@[k].1,
                ),
            r.icons.view_seq().len() == icons@.len(),
            forall|k: int|
                0 <= k < icons@.len() ==> (#[trigger] r.icons.view_seq()[k]).0 == icons@[k].0@
                    && r.icons.view_seq()[k].1.view_seq().len() == icons@[k].1@.len() && (forall|
                j: int,
            |
                    0 <= j < icons@[k].1@.len() ==> #[trigger] r.icons.view_seq()[k].1.view_seq()[j]
                        == (icons@[k].1@[j].0@, icons@[k].1@[j].1)),
    {
        let ghost sv = scaling@;
        let mut scaling_dict: Dict<Vec<IconScaling>> = Dict::new();
        let mut scaling = scaling;
        let mut i: usize = 0;
        let n = scaling.len();
        while i < n
            invariant
                0 <= i <= n,
                n == sv.len(),
                scaling@ =~= sv.subrange(i as int, n as int),
                forall|a: int, b: int| 0 <= a < b < sv.len() ==> sv[a].0@ != sv[b].0@,
                scaling_dict.wf(),
                scaling_dict.view_seq().len() == i,
                forall|k: int|
                    0 <= k < i ==> #[trigger] scaling_dict.view_seq()[k] == (sv[k].0@, sv[k].1),
            decreases n - i,
        {
            let ghost before = scaling_dict.view_seq();
            let (key, val) = scaling.remove(0);
            proof {
                assert(scaling@ =~= sv.subrange(i as int + 1, n as int));
                assert(forall|k: int| 0 <= k < i ==> before[k].0 == sv[k].0@);
                assert(forall|k: int| 0 <= k < i ==> before[k].0 != sv[i as int].0@);
                lemma_insert_appends(before, sv[i as int].0@, sv[i as int].1);
            }
            scaling_dict.insert(key, val);
            i = i + 1;
        }
        let ghost iv = icons@;
        let mut icons_dict: Dict<Dict<String>> = Dict::new();
        let mut icons = icons;
        let mut i: usize = 0;
        let n = icons.len();
        while i < n
            invariant
                0 <= i <= n,
                n == iv.len(),
                icons@ =~= iv.subrange(i as int, n as int),
                forall|a: int, b: int| 0 <= a < b < iv.len() ==> iv[a].0@ != iv[b].0@,
                forall|k: int, a: int, b: int|
                    0 <= k < iv.len() && 0 <= a < b < iv[k].1@.len() ==> #[trigger] iv[k].1@[a].0@
                        != #[trigger] iv[k].1@[b].0@,
                icons_dict.wf(),
                icons_dict.view_seq().len() == i,
                forall|k: int|
                    0 <= k < i ==> (#[trigger] icons_dict.view_seq()[k]).0 == iv[k].0@
                        && icons_dict.view_seq()[k].1.wf()
                        && icons_dict.view_seq()[k].1.view_seq().len() == iv[k].1@.len() && (forall|
                    j: int,
                |
                        0 <= j < iv[k].1@.len()
                            ==> #[trigger] icons_dict.view_seq()[k].1.view_seq()[j] == (
                            iv[k].1@[j].0@,
                            iv[k].1@[j].1,
                        )),
            decreases n - i,
        {
            let ghost before = icons_dict.view_seq();
            let (key, rows) = icons.remove(0);
            proof {
                assert(icons@ =~= iv.subrange(i as int + 1, n as int));
            }
            let mut inner: Dict<String> = Dict::new();
            let mut j: usize = 0;
            let m = rows.len();
            while j < m
                invariant
                    0 <= j <= m,
                    m == rows@.len(),
                    rows@ == iv[i as int].1@,
                    0 <= i < iv.len(),
                    forall|a: int, b: int|
                        0 <= a < b < rows@.len() ==> rows@[a].0@ != rows@[b].0@,
                    inner.wf(),
                    inner.view_seq().len() == j,
                    forall|k: int|
                        0 <= k < j ==> #[trigger] inner.view_seq()[k] == (
                            rows@[k].0@,
                            rows@[k].1,
                        ),
                decreases m - j,
            {
                let ghost ibefore = inner.view_seq();
                let row = string_pair_at(&rows, j);
                proof {
                    assert(forall|k: int| 0 <= k < j ==> ibefore[k].0 != rows@[j as int].0@);
                    lemma_insert_appends(ibefore, rows@[j as int].0@, rows@[j as int].1);
                }
                inner.insert(row.0, row.1);
                j = j + 1;
            }
            proof {
                assert(forall|k: int| 0 <= k < i ==> before[k].0 != iv[i as int].0@);
                lemma_insert_appends(before, iv[i as int].0@, inner);
            }
            icons_dict.insert(key, inner);
            i = i + 1;
        }
        IconMappings { scaling: scaling_dict, icons: icons_dict }
    }

    /// The distinct icon names the tables reference, first occurrence each,
    /// in category order then item order. The classifier runs once per name.
    pub fn unique_icon_names(&self) -> (r: Vec<String>)
        requires
            self.wf(),
        ensures
            r.deep_view() == spec_unique_names(flat_icon_names(self.icons.view_seq())),
    {
        let ghost ov = self.icons.view_seq();
        let mut flat: Vec<String> = Vec::new();
        let n = self.icons.len();
        let mut i: usize = 0;
        while i < n
            invariant
                0 <= i <= n,
                n == self.icons.spec_len(),
                ov == self.icons.view_seq(),
                flat.deep_view() =~= flat_icon_names(ov.take(i as int)),
            decreases n - i,
        {
            let inner = self.icons.val_at(i);
            let ghost nv = inner_names(inner.view_seq());
            let m = inner.len();
            let mut j: usize = 0;
            while j < m
                invariant
                    0 <= j <= m,
                    m == inner.spec_len(),
                    nv == inner_names(inner.view_seq()),
                    nv.len() == m,
                    forall|k: int|
                        0 <= k < m ==> nv[k] == (#[trigger] inner.view_seq()[k]).1@,
                    flat.deep_view() =~= flat_icon_names(ov.take(i as int)) + nv.take(j as int),
                decreases m - j,
            {
                let ghost fprev = flat.deep_view();
                flat.push(inner.val_at(j).clone());
                proof {
                    assert(flat.deep_view() =~= fprev.push(nv[j as int]));
                    assert(nv.take(j as int + 1) =~= nv.take(j as int).push(nv[j as int]));
                    assert(flat.deep_view() =~= flat_icon_names(ov.take(i as int)) + nv.take(
                        j as int + 1,
                    ));
                }
                j = j + 1;
            }
            proof {
                assert(nv.take(m as int) =~= nv);
                assert(ov.take(i as int + 1).drop_last() =~= ov.take(i as int));
                assert(ov.take(i as int + 1).last() == ov[i as int]);
                assert(flat_icon_names(ov.take(i as int + 1)) =~= flat_icon_names(ov.take(
                    i as int,
                )) + nv);
            }
            i = i + 1;
        }
        proof {
            assert(ov.take(n as int) =~= ov);
        }
        let ghost fview = flat.deep_view();
        let mut out: Vec<String> = Vec::new();
        let mut i: usize = 0;
        while i < flat.len()
            invariant
                0 <= i <= flat@.len(),
                fview == flat.deep_view(),
                fview.len() == flat@.len(),
                forall|k: int| 0 <= k < fview.len() ==> fview[k] == flat@[k]@,
                out.deep_view() =~= spec_unique_names(fview.take(i as int)),
            decreases flat@.len() - i,
        {
            proof {
                assert(fview.take(i as int + 1).drop_last() =~= fview.take(i as int));
                assert(fview.take(i as int + 1).last() == fview[i as int]);
            }
            if !vec_contains_string(&out, flat[i].as_str()) {
                let ghost oprev = out.deep_view();
                out.push(flat[i].clone());
                proof {
                    assert(out.deep_view() =~= oprev.push(fview[i as int]));
                }
            }
            i = i + 1;
        }
        proof {
            assert(fview.take(flat@.len() as int) =~= fview);
        }
        out
    }
}

/// The icon names one category's table references, in item order.
pub open spec fn inner_names(d: Seq<(Seq<char>, String)>) -> Seq<Seq<char>> {
    d.map(|i: int, p: (Seq<char>, String)| p.1@)
}

/// Every referenced icon name, in category order then item order.
pub open spec fn flat_icon_names(outer: Seq<(Seq<char>, Dict<String>)>) -> Seq<Seq<char>>
    decreases outer.len(),
{
    if outer.len() == 0 {
        Seq::empty()
    } else {
        flat_icon_names(outer.drop_last()) + inner_names(outer.last().1.view_seq())
    }
}

/// First occurrence of each name, in reference order.
pub open spec fn spec_unique_names(names: Seq<Seq<char>>) -> Seq<Seq<char>>
    decreases names.len(),
{
    if names.len() == 0 {
        Seq::empty()
    } else {
        let prefix = spec_unique_names(names.drop_last());
        if prefix.contains(names.last()) {
            prefix
        } else {
            prefix.push(names.last())
        }
    }
}

/// A snapshot of the remote class list used only for diagnostics.
pub struct APIDump {
    pub classes: Vec<APIClass>,
}

/// One class of the API dump.
pub struct APIClass {
    pub name: String,
}

/// The names the dump lists, in dump order.
pub open spec fn dump_names(classes: Seq<APIClass>) -> Seq<Seq<char>> {
    classes.map(|i: int, c: APIClass| c.name@)
}

/// The dump's class names without an instance icon mapping, in dump order.
pub open spec fn spec_missing(names: Seq<Seq<char>>, mapped: Seq<(Seq<char>, String)>) -> Seq<
    Seq<char>,
>
    decreases names.len(),
{
    if names.len() == 0 {
        Seq::empty()
    } else {
        let prefix = spec_missing(names.drop_last(), mapped);
        if crate::dict::seq_lookup(mapped, names.last()) is None {
            prefix.push(names.last())
        } else {
            prefix
        }
    }
}

/// The class names of an API dump that the instance table does not map: the
/// advisory "missing icon" diagnostic, in dump order.
pub fn missing_icons(dump: &APIDump, instance_icons: &Dict<String>) -> (r: Vec<String>)
    ensures
        r.deep_view() == spec_missing(dump_names(dump.classes@), instance_icons.view_seq()),
{
    let ghost names = dump_names(dump.classes@);
    let mut out: Vec<String> = Vec::new();
    let mut i: usize = 0;
    while i < dump.classes.len()
        invariant
            0 <= i <= dump.classes@.len(),
            names == dump_names(dump.classes@),
            names.len() == dump.classes@.len(),
            forall|k: int| 0 <= k < names.len() ==> names[k] == dump.classes@[k].name@,
            out.deep_view() =~= spec_missing(names.take(i as int), instance_icons.view_seq()),
        decreases dump.classes@.len() - i,
    {
        proof {
            assert(names.take(i as int + 1).drop_last() =~= names.take(i as int));
            assert(names.take(i as int + 1).last() == names[i as int]);
        }
        if !instance_icons.contains_key(dump.classes[i].name.as_str()) {
            let ghost oprev = out.deep_view();
            out.push(dump.classes[i].name.clone());
            proof {
                assert(out.deep_view() =~= oprev.push(names[i as int]));
            }
        }
        i = i + 1;
    }
    proof {
        assert(names.take(dump.classes@.len() as int) =~= names);
    }
    out
}

/// Moves the pair at a position out of a string row list.
fn string_pair_at(v: &Vec<(String, String)>, i: usize) -> (r: (String, String))
    requires
        i < v@.len(),
    ensures
        r.0 == v@[i as int].0,
        r.1 == v@[i as int].1,
{
    let p = &v[i];
    (p.0.clone(), p.1.clone())
}

} // verus!
