//! The template engine: templates, response matching, variable substitution
//! and template selection.
pub mod executor;
pub mod template;
pub mod matcher;
pub mod variables;

use vstd::prelude::*;
use crate::engine::template::{severity_rank, severity_weight, NucleiTemplate, TemplateFilter};
use crate::text::{ascii_lower, ascii_lower_exec, chars_of, split_all, split_exec, trim, trim_chars};

verus! {

// ---------------------------------------------------------------------------
// Tags
// ---------------------------------------------------------------------------

/// Comma-separated pieces, trimmed and lower-cased (ASCII), empty ones
/// dropped.
pub open spec fn clean_tags(parts: Seq<Seq<char>>) -> Seq<Seq<char>>
    decreases parts.len(),
{
    if parts.len() == 0 {
        Seq::empty()
    } else {
        let rest = clean_tags(parts.drop_last());
        let t = ascii_lower(trim(parts.last()));
        if t.len() > 0 {
            rest.push(t)
        } else {
            rest
        }
    }
}

/// The tags of a template.
pub open spec fn template_tags(t: NucleiTemplate) -> Seq<Seq<char>> {
    match t.info.tags {
        Some(s) => clean_tags(split_all(s@, ","@)),
        None => Seq::empty(),
    }
}

/// How often `x` occurs in `s`.
pub open spec fn count_in(s: Seq<Seq<char>>, x: Seq<char>) -> nat
    decreases s.len(),
{
    if s.len() == 0 {
        0
    } else {
        count_in(s.drop_last(), x) + if s.last() == x {
            1nat
        } else {
            0nat
        }
    }
}

/// Template `i` carries `tag`.
pub open spec fn has_tag(t: NucleiTemplate, tag: Seq<char>) -> bool {
    count_in(template_tags(t), tag) > 0
}

/// `i`, `n` times.
pub open spec fn repeat_index(i: int, n: nat) -> Seq<int> {
    Seq::new(n, |k: int| i)
}

/// Positions of the templates that carry `tag`, ascending, each as often as
/// the template lists the tag.
pub open spec fn tag_positions(ts: Seq<NucleiTemplate>, tag: Seq<char>) -> Seq<int>
    decreases ts.len(),
{
    if ts.len() == 0 {
        Seq::empty()
    } else {
        tag_positions(ts.drop_last(), tag) + repeat_index(
            ts.len() - 1,
            count_in(template_tags(ts.last()), tag),
        )
    }
}

/// Positions as integers.
pub open spec fn ints(v: Seq<usize>) -> Seq<int> {
    v.map_values(|x: usize| x as int)
}

/// The keys are distinct and as many as the lists, which are not empty.
pub open spec fn keys_distinct(keys: Seq<String>, lists: Seq<Vec<usize>>) -> bool {
    &&& keys.len() == lists.len()
    &&& forall|a: int, b: int|
        0 <= a < b < keys.len() ==> (#[trigger] keys[a])@ != (#[trigger] keys[b])@
    &&& forall|a: int| 0 <= a < lists.len() ==> (#[trigger] lists[a])@.len() > 0
}

/// The tag index lists, for each tag, exactly its positions: keys are
/// distinct, each key's list is its positions, and every tag with positions
/// has a key.
pub open spec fn index_of_tags(
    ts: Seq<NucleiTemplate>,
    keys: Seq<String>,
    lists: Seq<Vec<usize>>,
) -> bool {
    &&& keys_distinct(keys, lists)
    &&& forall|a: int|
        0 <= a < keys.len() ==> ints((#[trigger] lists[a])@) == tag_positions(ts, keys[a]@)
    &&& forall|tag: Seq<char>|
        (#[trigger] tag_positions(ts, tag)).len() > 0 ==> exists|a: int|
            0 <= a < keys.len() && (#[trigger] keys[a])@ == tag
}

proof fn lemma_count_in_bound(s: Seq<Seq<char>>, x: Seq<char>)
    ensures
        count_in(s, x) <= s.len(),
        count_in(s, x) > 0 <==> s.contains(x),
    decreases s.len(),
{
    if s.len() > 0 {
        lemma_count_in_bound(s.drop_last(), x);
        if s.last() == x {
            assert(s[s.len() - 1] == x);
        }
        if s.contains(x) && s.last() != x {
            let k = choose|k: int| 0 <= k < s.len() && s[k] == x;
            assert(s.drop_last()[k] == x);
        }
        if s.drop_last().contains(x) {
            let k = choose|k: int| 0 <= k < s.drop_last().len() && s.drop_last()[k] == x;
            assert(s[k] == x);
        }
    }
}

/// A position is listed for a tag exactly when its template carries the tag.
pub proof fn lemma_tag_positions_members(ts: Seq<NucleiTemplate>, tag: Seq<char>, i: int)
    ensures
        tag_positions(ts, tag).contains(i) <==> 0 <= i < ts.len() && has_tag(ts[i], tag),
        forall|k: int|
            0 <= k < tag_positions(ts, tag).len() ==> 0 <= #[trigger] tag_positions(ts, tag)[k]
                < ts.len(),
    decreases ts.len(),
{
    if ts.len() > 0 {
        let prev = ts.drop_last();
        lemma_tag_positions_members(prev, tag, i);
        let rep = repeat_index(ts.len() - 1, count_in(template_tags(ts.last()), tag));
        let all = tag_positions(ts, tag);
        assert(all == tag_positions(prev, tag) + rep);
        assert forall|k: int| 0 <= k < all.len() implies 0 <= #[trigger] all[k] < ts.len() by {
            if k >= tag_positions(prev, tag).len() {
                assert(all[k] == rep[k - tag_positions(prev, tag).len()]);
            } else {
                assert(all[k] == tag_positions(prev, tag)[k]);
            }
        }
        if all.contains(i) {
            let k = choose|k: int| 0 <= k < all.len() && all[k] == i;
            if k < tag_positions(prev, tag).len() {
                assert(tag_positions(prev, tag)[k] == i);
                assert(prev[i] == ts[i]);
            } else {
                assert(rep[k - tag_positions(prev, tag).len()] == i);
            }
        }
        if 0 <= i < ts.len() && has_tag(ts[i], tag) {
            if i < ts.len() - 1 {
                assert(prev[i] == ts[i]);
                let k = choose|k: int|
                    0 <= k < tag_positions(prev, tag).len() && tag_positions(prev, tag)[k] == i;
                assert(all[k] == i);
            } else {
                let p: int = tag_positions(prev, tag).len() as int;
                assert(rep.len() > 0);
                assert(all[p] == rep[0]);
            }
        }
    }
}

// ---------------------------------------------------------------------------
// Selection
// ---------------------------------------------------------------------------

/// The elements of `base` that satisfy `keep`, in order.
pub open spec fn filter_positions(base: Seq<int>, keep: spec_fn(int) -> bool) -> Seq<int>
    decreases base.len(),
{
    if base.len() == 0 {
        Seq::empty()
    } else {
        let rest = filter_positions(base.drop_last(), keep);
        if keep(base.last()) {
            rest.push(base.last())
        } else {
            rest
        }
    }
}

/// Positions `0..n`.
pub open spec fn all_positions(n: nat) -> Seq<int> {
    Seq::new(n, |i: int| i)
}

/// `id` is one of `ids`.
pub open spec fn id_listed(ids: Seq<String>, id: Seq<char>) -> bool {
    exists|k: int| 0 <= k < ids.len() && (#[trigger] ids[k])@ == id
}

/// Template `i`'s identifier is listed.
pub open spec fn listed_pred(ts: Seq<NucleiTemplate>, ids: Seq<String>) -> spec_fn(int) -> bool {
    |i: int| id_listed(ids, ts[i].id@)
}

/// Positions of the templates whose identifier is listed, in order.
pub open spec fn listed_positions(ts: Seq<NucleiTemplate>, ids: Seq<String>) -> Seq<int> {
    filter_positions(all_positions(ts.len()), listed_pred(ts, ids))
}

/// The least severity weight a filter admits: its own, or medium.
pub open spec fn min_weight(f: TemplateFilter) -> int {
    match f.severity_min {
        Some(s) => severity_rank(s@),
        None => 3,
    }
}

/// A filter's tags, lower-cased (ASCII).
pub open spec fn lowered(tags: Seq<String>) -> Seq<Seq<char>> {
    tags.map_values(|t: String| ascii_lower(t@))
}

/// Template `i` passes the tag, request and severity checks of `f`.
pub open spec fn template_admitted(ts: Seq<NucleiTemplate>, f: TemplateFilter, i: int) -> bool {
    &&& forall|k: int|
        0 <= k < f.tags_include@.len() ==> has_tag(ts[i], #[trigger] lowered(f.tags_include@)[k])
    &&& forall|k: int|
        0 <= k < f.tags_exclude@.len() ==> !has_tag(ts[i], #[trigger] lowered(f.tags_exclude@)[k])
    &&& ts[i].http@.len() > 0
    &&& severity_rank(ts[i].info.severity@) >= min_weight(f)
}

/// Template `i` is admitted by `f`.
pub open spec fn admitted_pred(ts: Seq<NucleiTemplate>, f: TemplateFilter) -> spec_fn(int) -> bool {
    |i: int| template_admitted(ts, f, i)
}

/// Some include tag is carried by no template.
pub open spec fn include_tag_unknown(ts: Seq<NucleiTemplate>, f: TemplateFilter) -> bool {
    exists|k: int|
        0 <= k < f.tags_include@.len() && tag_positions(ts, #[trigger] lowered(f.tags_include@)[k]).len()
            == 0
}

/// The positions of the templates a filter selects. Listed identifiers decide
/// alone. Otherwise the candidates are the positions of the first include tag
/// (all positions when there is none), nothing when an include tag is carried
/// by no template; the candidates that carry every include tag and no exclude
/// tag, have HTTP requests and are severe enough are selected.
pub open spec fn selected_positions(ts: Seq<NucleiTemplate>, f: TemplateFilter) -> Seq<int> {
    match f.template_ids {
        Some(ids) => listed_positions(ts, ids@),
        None => if f.tags_include@.len() > 0 && include_tag_unknown(ts, f) {
            Seq::empty()
        } else {
            let base = if f.tags_include@.len() > 0 {
                tag_positions(ts, lowered(f.tags_include@)[0])
            } else {
                all_positions(ts.len())
            };
            filter_positions(base, admitted_pred(ts, f))
        },
    }
}

/// Loaded templates, with an index from tag to template positions.
pub struct NucleiEngine {
    templates: Vec<NucleiTemplate>,
    tag_keys: Vec<String>,
    tag_lists: Vec<Vec<usize>>,
}

impl NucleiEngine {
    /// The index is exact.
    #[verifier::type_invariant]
    spec fn index_exact(self) -> bool {
        index_of_tags(self.templates@, self.tag_keys@, self.tag_lists@)
    }

    /// The loaded templates.
    pub closed spec fn templates_view(&self) -> Seq<NucleiTemplate> {
        self.templates@
    }

    /// An engine without templates.
    pub fn empty() -> (res: Self)
        ensures
            res.templates_view().len() == 0,
    {
        NucleiEngine { templates: Vec::new(), tag_keys: Vec::new(), tag_lists: Vec::new() }
    }

    /// Number of loaded templates.
    pub fn template_count(&self) -> (res: usize)
        ensures
            res == self.templates_view().len(),
    {
        self.templates.len()
    }

    /// The loaded templates.
    pub fn all_templates(&self) -> (res: &[NucleiTemplate])
        ensures
            res@ == self.templates_view(),
    {
        self.templates.as_slice()
    }

    /// The directory the templates were loaded from; the engine does not
    /// keep it.
    pub fn templates_dir(&self) -> (res: Option<&str>)
        ensures
            res is None,
    {
        None
    }

    /// The default template directory: `nuclei-templates` under the root
    /// directory.
    pub fn default_dir(root_dir: &str) -> (res: String)
        ensures
            res@ == crate::text::path_join(root_dir@, "nuclei-templates"@),
    {
        crate::text::path_join_exec(root_dir, "nuclei-templates")
    }
}


// ---------------------------------------------------------------------------
// Building the index
// ---------------------------------------------------------------------------

/// The tags of a template, computed.
fn tags_of(t: &NucleiTemplate) -> (res: Vec<Vec<char>>)
    ensures
        res@.map_values(|v: Vec<char>| v@) == template_tags(*t),
{
    match &t.info.tags {
        Some(s) => {
            proof {
                reveal_strlit(",");
            }
            let cs = chars_of(s.as_str());
            let comma = chars_of(",");
            let parts = split_exec(cs.as_slice(), comma.as_slice());
            let ghost pv = parts@.map_values(|v: Vec<char>| v@);
            let mut out: Vec<Vec<char>> = Vec::new();
            let mut i: usize = 0;
            while i < parts.len()
                invariant
                    i <= parts@.len(),
                    pv == parts@.map_values(|v: Vec<char>| v@),
                    out@.map_values(|v: Vec<char>| v@) == clean_tags(pv.take(i as int)),
                decreases parts@.len() - i,
            {
                let tr = trim_chars(parts[i].as_slice());
                let l = ascii_lower_exec(tr.as_slice());
                proof {
                    assert(pv.take(i + 1).drop_last() =~= pv.take(i as int));
                    assert(pv.take(i + 1).last() == parts@[i as int]@);
                }
                if l.len() > 0 {
                    out.push(l);
                    proof {
                        assert(out@.map_values(|v: Vec<char>| v@) =~= clean_tags(
                            pv.take(i as int),
                        ).push(l@));
                    }
                }
                i = i + 1;
            }
            assert(pv.take(i as int) =~= pv);
            out
        },
        None => Vec::new(),
    }
}

/// Position of `tag` among the keys.
fn find_key(keys: &Vec<String>, tag: &[char]) -> (res: Option<usize>)
    ensures
        res matches Some(k) ==> k < keys@.len() && keys@[k as int]@ == tag@,
        res is None ==> forall|a: int| 0 <= a < keys@.len() ==> (#[trigger] keys@[a])@ != tag@,
{
    let mut a: usize = 0;
    while a < keys.len()
        invariant
            a <= keys@.len(),
            forall|b: int| 0 <= b < a ==> (#[trigger] keys@[b])@ != tag@,
        decreases keys@.len() - a,
    {
        let kc = chars_of(keys[a].as_str());
        if crate::text::chars_eq(kc.as_slice(), tag) {
            return Some(a);
        }
        a = a + 1;
    }
    None
}

/// Positions of `tag` in the first `i` templates, then `i` once for each
/// occurrence among the first `j` tags of template `i`.
pub open spec fn partial_positions(
    ts: Seq<NucleiTemplate>,
    i: int,
    tv: Seq<Seq<char>>,
    j: int,
    tag: Seq<char>,
) -> Seq<int> {
    tag_positions(ts.take(i), tag) + repeat_index(i, count_in(tv.take(j), tag))
}

/// The index as it stands after the first `j` tags of template `i`.
pub open spec fn partial_index(
    ts: Seq<NucleiTemplate>,
    i: int,
    tv: Seq<Seq<char>>,
    j: int,
    keys: Seq<String>,
    lists: Seq<Vec<usize>>,
) -> bool {
    &&& keys_distinct(keys, lists)
    &&& forall|a: int|
        0 <= a < keys.len() ==> ints((#[trigger] lists[a])@) == partial_positions(
            ts,
            i,
            tv,
            j,
            keys[a]@,
        )
    &&& forall|tag: Seq<char>|
        (#[trigger] partial_positions(ts, i, tv, j, tag)).len() > 0 ==> exists|a: int|
            0 <= a < keys.len() && (#[trigger] keys[a])@ == tag
}

proof fn lemma_partial_start(ts: Seq<NucleiTemplate>, i: int, tv: Seq<Seq<char>>, tag: Seq<char>)
    requires
        0 <= i < ts.len(),
    ensures
        partial_positions(ts, i, tv, 0, tag) == tag_positions(ts.take(i), tag),
{
    assert(tv.take(0) =~= Seq::<Seq<char>>::empty());
    assert(partial_positions(ts, i, tv, 0, tag) =~= tag_positions(ts.take(i), tag));
}

proof fn lemma_partial_end(ts: Seq<NucleiTemplate>, i: int, tag: Seq<char>)
    requires
        0 <= i < ts.len(),
    ensures
        partial_positions(ts, i, template_tags(ts[i]), template_tags(ts[i]).len() as int, tag)
            == tag_positions(ts.take(i + 1), tag),
{
    let tv = template_tags(ts[i]);
    assert(tv.take(tv.len() as int) =~= tv);
    assert(ts.take(i + 1).drop_last() =~= ts.take(i));
    assert(ts.take(i + 1).last() == ts[i]);
}

proof fn lemma_partial_step(
    ts: Seq<NucleiTemplate>,
    i: int,
    tv: Seq<Seq<char>>,
    j: int,
    tag: Seq<char>,
)
    requires
        0 <= j < tv.len(),
    ensures
        partial_positions(ts, i, tv, j + 1, tag) == if tv[j] == tag {
            partial_positions(ts, i, tv, j, tag).push(i)
        } else {
            partial_positions(ts, i, tv, j, tag)
        },
{
    assert(tv.take(j + 1).drop_last() =~= tv.take(j));
    assert(tv.take(j + 1).last() == tv[j]);
    let c = count_in(tv.take(j), tag);
    if tv[j] == tag {
        assert(repeat_index(i, c + 1) =~= repeat_index(i, c).push(i));
        assert(partial_positions(ts, i, tv, j + 1, tag) =~= partial_positions(ts, i, tv, j, tag).push(
            i,
        ));
    }
}

impl NucleiEngine {
    /// An engine over the given templates, with the tag index built from
    /// their comma-separated tags.
    pub fn from_templates(templates: Vec<NucleiTemplate>) -> (res: Self)
        ensures
            res.templates_view() == templates@,
    {
        let ghost ts = templates@;
        let mut keys: Vec<String> = Vec::new();
        let mut lists: Vec<Vec<usize>> = Vec::new();
        let mut i: usize = 0;
        assert(ts.take(0) =~= Seq::<NucleiTemplate>::empty());
        while i < templates.len()
            invariant
                i <= ts.len(),
                ts == templates@,
                index_of_tags(ts.take(i as int), keys@, lists@),
            decreases ts.len() - i,
        {
            let tags = tags_of(&templates[i]);
            let ghost tv = tags@.map_values(|v: Vec<char>| v@);
            proof {
                assert forall|tag: Seq<char>|
                    #[trigger] partial_positions(ts, i as int, tv, 0, tag) == tag_positions(
                        ts.take(i as int),
                        tag,
                    ) by {
                    lemma_partial_start(ts, i as int, tv, tag);
                }
                assert forall|tag: Seq<char>|
                    (#[trigger] partial_positions(ts, i as int, tv, 0, tag)).len()
                        > 0 implies exists|a: int|
                    0 <= a < keys@.len() && (#[trigger] keys@[a])@ == tag by {
                    assert(tag_positions(ts.take(i as int), tag).len() > 0);
                }
            }
            let mut j: usize = 0;
            while j < tags.len()
                invariant
                    i < ts.len(),
                    ts == templates@,
                    j <= tv.len(),
                    tv == tags@.map_values(|v: Vec<char>| v@),
                    partial_index(ts, i as int, tv, j as int, keys@, lists@),
                decreases tv.len() - j,
            {
                let x = &tags[j];
                proof {
                    assert(tv[j as int] == x@);
                    assert forall|tag: Seq<char>|
                        #![trigger partial_positions(ts, i as int, tv, j + 1, tag)]
                        partial_positions(ts, i as int, tv, j + 1, tag) == if tv[j as int] == tag {
                            partial_positions(ts, i as int, tv, j as int, tag).push(i as int)
                        } else {
                            partial_positions(ts, i as int, tv, j as int, tag)
                        } by {
                        lemma_partial_step(ts, i as int, tv, j as int, tag);
                    }
                }
                match find_key(&keys, x.as_slice()) {
                    Some(k) => {
                        let mut l = lists[k].clone();
                        let ghost old_lists = lists@;
                        l.push(i);
                        lists.set(k, l);
                        proof {
                            assert(ints(lists@[k as int]@) =~= ints(old_lists[k as int]@).push(
                                i as int,
                            ));
                            assert forall|a: int| 0 <= a < lists@.len() implies (#[trigger] lists@[a])@.len() > 0 by {
                                if a != k {
                                    assert(lists@[a] == old_lists[a]);
                                }
                            }
                            assert forall|a: int|
                                0 <= a < keys@.len() implies ints((#[trigger] lists@[a])@)
                                == partial_positions(ts, i as int, tv, j + 1, keys@[a]@) by {
                                if a != k {
                                    assert(lists@[a] == old_lists[a]);
                                }
                            }
                            assert forall|tag: Seq<char>|
                                (#[trigger] partial_positions(ts, i as int, tv, j + 1, tag)).len()
                                    > 0 implies exists|a: int|
                                0 <= a < keys@.len() && (#[trigger] keys@[a])@ == tag by {
                                if tag == x@ {
                                    assert(keys@[k as int]@ == tag);
                                } else {
                                    assert(partial_positions(ts, i as int, tv, j as int, tag).len()
                                        > 0);
                                }
                            }
                        }
                    },
                    None => {
                        let ghost old_keys = keys@;
                        let ghost old_lists = lists@;
                        proof {
                            if partial_positions(ts, i as int, tv, j as int, x@).len() > 0 {
                                let a = choose|a: int|
                                    0 <= a < old_keys.len() && (#[trigger] old_keys[a])@ == x@;
                                assert(false);
                            }
                        }
                        keys.push(crate::text::string_of(x.as_slice()));
                        let mut l: Vec<usize> = Vec::new();
                        l.push(i);
                        lists.push(l);
                        proof {
                            let n = old_keys.len() as int;
                            assert(ints(lists@[n]@) =~= seq![i as int]);
                            assert(partial_positions(ts, i as int, tv, j as int, x@) =~= Seq::<
                                int,
                            >::empty());
                            assert forall|a: int| 0 <= a < lists@.len() implies (#[trigger] lists@[a])@.len() > 0 by {
                                if a < n {
                                    assert(lists@[a] == old_lists[a]);
                                }
                            }
                            assert forall|a: int, b: int|
                                0 <= a < b < keys@.len() implies (#[trigger] keys@[a])@
                                != (#[trigger] keys@[b])@ by {
                                if b == n {
                                    assert(old_keys[a] == keys@[a]);
                                } else {
                                    assert(old_keys[a] == keys@[a] && old_keys[b] == keys@[b]);
                                }
                            }
                            assert forall|a: int|
                                0 <= a < keys@.len() implies ints((#[trigger] lists@[a])@)
                                == partial_positions(ts, i as int, tv, j + 1, keys@[a]@) by {
                                if a < n {
                                    assert(lists@[a] == old_lists[a]);
                                    assert(keys@[a] == old_keys[a]);
                                    assert(ints(old_lists[a]@) == partial_positions(
                                        ts,
                                        i as int,
                                        tv,
                                        j as int,
                                        old_keys[a]@,
                                    ));
                                }
                            }
                            assert forall|tag: Seq<char>|
                                (#[trigger] partial_positions(ts, i as int, tv, j + 1, tag)).len()
                                    > 0 implies exists|a: int|
                                0 <= a < keys@.len() && (#[trigger] keys@[a])@ == tag by {
                                if tag == x@ {
                                    assert(keys@[n]@ == tag);
                                } else {
                                    assert(partial_positions(ts, i as int, tv, j as int, tag).len()
                                        > 0);
                                    let a = choose|a: int|
                                        0 <= a < old_keys.len() && (#[trigger] old_keys[a])@
                                            == tag;
                                    assert(keys@[a] == old_keys[a]);
                                }
                            }
                        }
                    },
                }
                j = j + 1;
            }
            proof {
                assert(tv == template_tags(ts[i as int]));
                assert forall|tag: Seq<char>|
                    #[trigger] tag_positions(ts.take(i + 1), tag) == partial_positions(
                        ts,
                        i as int,
                        tv,
                        tv.len() as int,
                        tag,
                    ) by {
                    lemma_partial_end(ts, i as int, tag);
                }
                assert forall|tag: Seq<char>|
                    (#[trigger] tag_positions(ts.take(i + 1), tag)).len() > 0 implies exists|a: int|
                    0 <= a < keys@.len() && (#[trigger] keys@[a])@ == tag by {
                    assert(partial_positions(ts, i as int, tv, tv.len() as int, tag).len() > 0);
                }
            }
            i = i + 1;
        }
        assert(ts.take(i as int) =~= ts);
        NucleiEngine { templates, tag_keys: keys, tag_lists: lists }
    }
}


// ---------------------------------------------------------------------------
// Selecting
// ---------------------------------------------------------------------------

/// `i` is one of the positions in `l`.
fn list_contains(l: &Vec<usize>, i: usize) -> (res: bool)
    ensures
        res == ints(l@).contains(i as int),
{
    let mut k: usize = 0;
    while k < l.len()
        invariant
            k <= l@.len(),
            forall|m: int| 0 <= m < k ==> l@[m] != i,
        decreases l@.len() - k,
    {
        if l[k] == i {
            assert(ints(l@)[k as int] == i as int);
            return true;
        }
        k = k + 1;
    }
    proof {
        if ints(l@).contains(i as int) {
            let m = choose|m: int| 0 <= m < ints(l@).len() && ints(l@)[m] == i as int;
            assert(l@[m] == i);
        }
    }
    false
}

/// The positions `0..n`.
fn all_positions_exec(n: usize) -> (res: Vec<usize>)
    ensures
        ints(res@) == all_positions(n as nat),
        res@.len() == n,
        forall|m: int| 0 <= m < n ==> res@[m] == m,
{
    let mut v: Vec<usize> = Vec::new();
    let mut i: usize = 0;
    while i < n
        invariant
            i <= n,
            ints(v@) == all_positions(i as nat),
        decreases n - i,
    {
        let ghost before = v@;
        v.push(i);
        assert(ints(v@) =~= ints(before).push(i as int));
        i = i + 1;
        assert(ints(v@) =~= all_positions(i as nat));
    }
    assert forall|m: int| 0 <= m < n implies v@[m] == m by {
        assert(ints(v@)[m] == all_positions(n as nat)[m]);
    }
    v
}

impl NucleiEngine {
    /// The index entry of a tag; none when no template carries it.
    fn lookup(&self, tag: &[char]) -> (res: Option<usize>)
        ensures
            res matches Some(k) ==> k < self.tag_lists@.len() && ints(self.tag_lists@[k as int]@)
                == tag_positions(self.templates@, tag@) && tag_positions(self.templates@, tag@).len()
                > 0,
            res is None ==> tag_positions(self.templates@, tag@).len() == 0,
    {
        proof {
            use_type_invariant(self);
        }
        let r = find_key(&self.tag_keys, tag);
        proof {
            if let Some(k) = r {
                assert(self.tag_lists@[k as int]@.len() > 0);
                assert(ints(self.tag_lists@[k as int]@).len() == self.tag_lists@[k as int]@.len());
            }
            if r is None && tag_positions(self.templates@, tag@).len() > 0 {
                let a = choose|a: int|
                    0 <= a < self.tag_keys@.len() && (#[trigger] self.tag_keys@[a])@ == tag@;
                assert(false);
            }
        }
        r
    }

    /// Whether template `i` carries `tag`.
    fn carries(&self, tag: &[char], i: usize) -> (res: bool)
        requires
            i < self.templates@.len(),
        ensures
            res == has_tag(self.templates@[i as int], tag@),
    {
        proof {
            lemma_tag_positions_members(self.templates@, tag@, i as int);
        }
        match self.lookup(tag) {
            Some(k) => list_contains(&self.tag_lists[k], i),
            None => false,
        }
    }

    /// Whether template `i` passes the tag, request and severity checks.
    fn admitted(&self, filter: &TemplateFilter, min: u8, i: usize) -> (res: bool)
        requires
            i < self.templates@.len(),
            min as int == min_weight(*filter),
        ensures
            res == template_admitted(self.templates@, *filter, i as int),
    {
        let ghost ts = self.templates@;
        let ghost inc = lowered(filter.tags_include@);
        let ghost exc = lowered(filter.tags_exclude@);
        let mut k: usize = 0;
        while k < filter.tags_include.len()
            invariant
                i < ts.len(),
                ts == self.templates@,
                inc == lowered(filter.tags_include@),
                k <= filter.tags_include@.len(),
                forall|m: int| 0 <= m < k ==> has_tag(ts[i as int], #[trigger] inc[m]),
            decreases filter.tags_include@.len() - k,
        {
            let t = chars_of(filter.tags_include[k].as_str());
            let l = ascii_lower_exec(t.as_slice());
            if !self.carries(l.as_slice(), i) {
                assert(inc[k as int] == l@);
                assert(!has_tag(ts[i as int], inc[k as int]));
                return false;
            }
            k = k + 1;
        }
        let mut k: usize = 0;
        while k < filter.tags_exclude.len()
            invariant
                i < ts.len(),
                ts == self.templates@,
                exc == lowered(filter.tags_exclude@),
                k <= filter.tags_exclude@.len(),
                forall|m: int| 0 <= m < k ==> !has_tag(ts[i as int], #[trigger] exc[m]),
            decreases filter.tags_exclude@.len() - k,
        {
            let t = chars_of(filter.tags_exclude[k].as_str());
            let l = ascii_lower_exec(t.as_slice());
            if self.carries(l.as_slice(), i) {
                assert(exc[k as int] == l@);
                assert(has_tag(ts[i as int], exc[k as int]));
                return false;
            }
            k = k + 1;
        }
        let t = &self.templates[i];
        if t.http.len() == 0 {
            return false;
        }
        severity_weight(t.info.severity.as_str()) >= min
    }

    /// The templates at the positions of `base` that `keep` admits, in order.
    fn pick<'a>(
        &'a self,
        base: &Vec<usize>,
        filter: &TemplateFilter,
        min: u8,
        listed: bool,
    ) -> (res: Vec<&'a NucleiTemplate>)
        requires
            forall|m: int| 0 <= m < base@.len() ==> base@[m] < self.templates@.len(),
            min as int == min_weight(*filter),
            listed ==> filter.template_ids is Some,
        ensures
            ({
                let keep = if listed {
                    listed_pred(self.templates@, filter.template_ids->0@)
                } else {
                    admitted_pred(self.templates@, *filter)
                };
                let sel = filter_positions(ints(base@), keep);
                &&& res@.len() == sel.len()
                &&& forall|m: int| 0 <= m < sel.len() ==> *(#[trigger] res@[m]) == self.templates@[sel[m]]
            }),
    {
        let ghost ts = self.templates@;
        let ghost keep = if listed {
            listed_pred(ts, filter.template_ids->0@)
        } else {
            admitted_pred(ts, *filter)
        };
        let ghost bs = ints(base@);
        let mut out: Vec<&'a NucleiTemplate> = Vec::new();
        let mut k: usize = 0;
        while k < base.len()
            invariant
                k <= base@.len(),
                ts == self.templates@,
                bs == ints(base@),
                forall|m: int| 0 <= m < base@.len() ==> base@[m] < ts.len(),
                min as int == min_weight(*filter),
                listed ==> filter.template_ids is Some,
                keep == (if listed {
                    listed_pred(ts, filter.template_ids->0@)
                } else {
                    admitted_pred(ts, *filter)
                }),
                out@.len() == filter_positions(bs.take(k as int), keep).len(),
                forall|m: int|
                    0 <= m < out@.len() ==> *(#[trigger] out@[m]) == ts[filter_positions(
                        bs.take(k as int),
                        keep,
                    )[m]],
            decreases base@.len() - k,
        {
            let i = base[k];
            let ok = if listed {
                match &filter.template_ids {
                    Some(ids) => crate::text::strings_contain(ids.as_slice(), self.templates[i].id.as_str()),
                    None => false,
                }
            } else {
                self.admitted(filter, min, i)
            };
            let ghost prev = filter_positions(bs.take(k as int), keep);
            proof {
                assert(bs.take(k + 1).drop_last() =~= bs.take(k as int));
                assert(bs.take(k + 1).last() == i as int);
                assert(ok == keep(i as int));
            }
            let ghost before = out@;
            if ok {
                out.push(&self.templates[i]);
                proof {
                    assert(filter_positions(bs.take(k + 1), keep) == prev.push(i as int));
                    assert forall|m: int| 0 <= m < out@.len() implies *(#[trigger] out@[m])
                        == ts[filter_positions(bs.take(k + 1), keep)[m]] by {
                        if m < prev.len() {
                            assert(out@[m] == before[m]);
                        }
                    }
                }
            }
            k = k + 1;
        }
        assert(bs.take(k as int) =~= bs);
        out
    }
}

impl NucleiEngine {
    /// The templates a filter selects, in the order of `selected_positions`:
    /// listed identifiers alone when given; otherwise the templates that
    /// carry every include tag (nothing when one is carried by no template)
    /// and no exclude tag, have HTTP requests, and are at least as severe as
    /// the filter asks (medium when it names no severity).
    pub fn select_templates<'a>(&'a self, filter: &TemplateFilter) -> (res: Vec<&'a NucleiTemplate>)
        ensures
            res@.len() == selected_positions(self.templates_view(), *filter).len(),
            forall|m: int|
                0 <= m < res@.len() ==> *(#[trigger] res@[m]) == self.templates_view()[selected_positions(
                    self.templates_view(),
                    *filter,
                )[m]],
    {
        proof {
            use_type_invariant(self);
        }
        let ghost ts = self.templates@;
        let min: u8 = match &filter.severity_min {
            Some(s) => severity_weight(s.as_str()),
            None => 3,
        };
        if filter.template_ids.is_some() {
            let all = all_positions_exec(self.templates.len());
            return self.pick(&all, filter, min, true);
        }
        let ghost inc = lowered(filter.tags_include@);
        let base: Vec<usize> = if filter.tags_include.len() > 0 {
            let mut first: usize = 0;
            let mut k: usize = 0;
            while k < filter.tags_include.len()
                invariant
                    ts == self.templates@,
                    filter.template_ids is None,
                    index_of_tags(self.templates@, self.tag_keys@, self.tag_lists@),
                    inc == lowered(filter.tags_include@),
                    k <= filter.tags_include@.len(),
                    forall|m: int| 0 <= m < k ==> tag_positions(ts, #[trigger] inc[m]).len() > 0,
                    k > 0 ==> first < self.tag_lists@.len() && ints(self.tag_lists@[first as int]@)
                        == tag_positions(ts, inc[0]),
                decreases filter.tags_include@.len() - k,
            {
                let t = chars_of(filter.tags_include[k].as_str());
                let l = ascii_lower_exec(t.as_slice());
                assert(inc[k as int] == l@);
                match self.lookup(l.as_slice()) {
                    Some(e) => {
                        if k == 0 {
                            first = e;
                        }
                    },
                    None => {
                        assert(include_tag_unknown(ts, *filter));
                        assert(selected_positions(ts, *filter).len() == 0);
                        return Vec::new();
                    },
                }
                k = k + 1;
            }
            proof {
                assert(!include_tag_unknown(ts, *filter));
                lemma_tag_positions_members(ts, inc[0], 0);
            }
            let b = self.tag_lists[first].clone();
            proof {
                assert forall|m: int| 0 <= m < b@.len() implies b@[m] < ts.len() by {
                    assert(ints(b@)[m] == tag_positions(ts, inc[0])[m]);
                }
            }
            b
        } else {
            let b = all_positions_exec(self.templates.len());
            b
        };
        self.pick(&base, filter, min, false)
    }
}

/// Every element that `filter_positions` keeps satisfies the predicate and
/// comes from the base.
pub proof fn lemma_filter_positions_sound(base: Seq<int>, keep: spec_fn(int) -> bool)
    ensures
        forall|m: int|
            0 <= m < filter_positions(base, keep).len() ==> keep(
                #[trigger] filter_positions(base, keep)[m],
            ) && base.contains(filter_positions(base, keep)[m]),
        filter_positions(base, keep).len() <= base.len(),
    decreases base.len(),
{
    if base.len() > 0 {
        let prev = base.drop_last();
        lemma_filter_positions_sound(prev, keep);
        let r = filter_positions(base, keep);
        assert forall|m: int| 0 <= m < r.len() implies keep(#[trigger] r[m]) && base.contains(
            r[m],
        ) by {
            if m < filter_positions(prev, keep).len() {
                assert(r[m] == filter_positions(prev, keep)[m]);
                let j = choose|j: int| 0 <= j < prev.len() && prev[j] == r[m];
                assert(base[j] == prev[j]);
            } else {
                assert(base[base.len() - 1] == base.last());
            }
        }
    }
}

/// Without listed identifiers, every selected template carries all include
/// tags, no exclude tag, has HTTP requests and is severe enough.
pub proof fn law_selected_templates_admitted(ts: Seq<NucleiTemplate>, f: TemplateFilter)
    requires
        f.template_ids is None,
    ensures
        forall|m: int|
            0 <= m < selected_positions(ts, f).len() ==> template_admitted(
                ts,
                f,
                #[trigger] selected_positions(ts, f)[m],
            ),
{
    if !(f.tags_include@.len() > 0 && include_tag_unknown(ts, f)) {
        let base = if f.tags_include@.len() > 0 {
            tag_positions(ts, lowered(f.tags_include@)[0])
        } else {
            all_positions(ts.len())
        };
        lemma_filter_positions_sound(base, admitted_pred(ts, f));
    }
}

/// With listed identifiers, exactly the templates whose identifier is listed
/// are selected, in their order.
pub proof fn law_listed_templates_selected(ts: Seq<NucleiTemplate>, f: TemplateFilter)
    requires
        f.template_ids is Some,
    ensures
        forall|m: int|
            0 <= m < selected_positions(ts, f).len() ==> id_listed(
                f.template_ids->0@,
                ts[#[trigger] selected_positions(ts, f)[m]].id@,
            ),
{
    let ids = f.template_ids->0@;
    lemma_filter_positions_sound(all_positions(ts.len()), listed_pred(ts, ids));
}

/// Filtering by a predicate that implies the first filter's gives what the
/// second filter alone gives.
proof fn lemma_filter_twice(base: Seq<int>, p: spec_fn(int) -> bool, q: spec_fn(int) -> bool)
    requires
        forall|x: int| #[trigger] q(x) ==> p(x),
    ensures
        filter_positions(filter_positions(base, p), q) == filter_positions(base, q),
    decreases base.len(),
{
    if base.len() > 0 {
        lemma_filter_twice(base.drop_last(), p, q);
        let fp = filter_positions(base, p);
        if p(base.last()) {
            assert(fp.drop_last() =~= filter_positions(base.drop_last(), p));
            assert(fp.last() == base.last());
        }
    }
}

/// Filtering by predicates that agree on the base gives the same positions.
proof fn lemma_filter_agree(base: Seq<int>, p: spec_fn(int) -> bool, q: spec_fn(int) -> bool)
    requires
        forall|k: int| 0 <= k < base.len() ==> p(#[trigger] base[k]) == q(base[k]),
    ensures
        filter_positions(base, p) == filter_positions(base, q),
    decreases base.len(),
{
    if base.len() > 0 {
        let b = base.drop_last();
        assert forall|k: int| 0 <= k < b.len() implies p(#[trigger] b[k]) == q(b[k]) by {
            assert(b[k] == base[k]);
        }
        lemma_filter_agree(b, p, q);
        assert(base.last() == base[base.len() - 1]);
    }
}

/// Filtering positions none of which is kept gives nothing.
proof fn lemma_filter_none(base: Seq<int>, p: spec_fn(int) -> bool)
    requires
        forall|k: int| 0 <= k < base.len() ==> !p(#[trigger] base[k]),
    ensures
        filter_positions(base, p).len() == 0,
    decreases base.len(),
{
    if base.len() > 0 {
        let b = base.drop_last();
        assert forall|k: int| 0 <= k < b.len() implies !p(#[trigger] b[k]) by {
            assert(b[k] == base[k]);
        }
        lemma_filter_none(b, p);
        assert(base.last() == base[base.len() - 1]);
    }
}

/// A list without repeats holds each element at most once.
proof fn lemma_count_at_most_one(s: Seq<Seq<char>>, x: Seq<char>)
    requires
        s.no_duplicates(),
    ensures
        count_in(s, x) <= 1,
    decreases s.len(),
{
    if s.len() > 0 {
        let b = s.drop_last();
        assert(b.no_duplicates()) by {
            assert forall|i: int, j: int| 0 <= i < b.len() && 0 <= j < b.len() && i != j implies b[i] != b[j] by {
                assert(b[i] == s[i] && b[j] == s[j]);
            }
        }
        lemma_count_at_most_one(b, x);
        if s.last() == x {
            lemma_count_in_bound(b, x);
            if b.contains(x) {
                let k = choose|k: int| 0 <= k < b.len() && b[k] == x;
                assert(s[k] == s[s.len() - 1]);
            }
        }
    }
}

/// Template `i` carries `tag`.
pub open spec fn carries_pred(ts: Seq<NucleiTemplate>, tag: Seq<char>) -> spec_fn(int) -> bool {
    |i: int| has_tag(ts[i], tag)
}

/// When no template lists a tag twice, the positions of a tag are the
/// positions of the templates that carry it, in order.
proof fn lemma_tag_positions_filter(ts: Seq<NucleiTemplate>, tag: Seq<char>)
    requires
        forall|i: int| 0 <= i < ts.len() ==> (#[trigger] template_tags(ts[i])).no_duplicates(),
    ensures
        tag_positions(ts, tag) == filter_positions(all_positions(ts.len()), carries_pred(ts, tag)),
    decreases ts.len(),
{
    if ts.len() > 0 {
        let prev = ts.drop_last();
        assert forall|i: int| 0 <= i < prev.len() implies (#[trigger] template_tags(prev[i])).no_duplicates() by {
            assert(prev[i] == ts[i]);
            assert(template_tags(ts[i]).no_duplicates());
        }
        lemma_tag_positions_filter(prev, tag);
        let n = ts.len();
        let all = all_positions(n);
        assert(all.drop_last() =~= all_positions(prev.len()));
        assert forall|k: int| 0 <= k < all_positions(prev.len()).len() implies carries_pred(prev, tag)(
            #[trigger] all_positions(prev.len())[k],
        ) == carries_pred(ts, tag)(all_positions(prev.len())[k]) by {
            assert(prev[k] == ts[k]);
        }
        lemma_filter_agree(all_positions(prev.len()), carries_pred(prev, tag), carries_pred(ts, tag));
        assert(template_tags(ts[n - 1]).no_duplicates());
        assert(ts.last() == ts[n - 1]);
        lemma_count_at_most_one(template_tags(ts.last()), tag);
        assert(all.last() == n - 1);
        let c = count_in(template_tags(ts.last()), tag);
        if c == 0 {
            assert(repeat_index(n - 1, c) =~= Seq::<int>::empty());
            assert(tag_positions(prev, tag) + repeat_index(n - 1, c) =~= tag_positions(prev, tag));
        } else {
            assert(repeat_index(n - 1, c) =~= seq![n - 1]);
            assert(tag_positions(prev, tag) + repeat_index(n - 1, c) =~= tag_positions(prev, tag).push(n - 1));
        }
    }
}

/// Without listed identifiers, and when no template lists a tag twice, the
/// selection is exactly the templates, in their order, that carry every
/// include tag and no exclude tag, have HTTP requests and are at least as
/// severe as the filter asks (medium when it names no severity).
pub proof fn law_selection_is_admitted_templates(ts: Seq<NucleiTemplate>, f: TemplateFilter)
    requires
        f.template_ids is None,
        forall|i: int| 0 <= i < ts.len() ==> (#[trigger] template_tags(ts[i])).no_duplicates(),
    ensures
        selected_positions(ts, f) == filter_positions(all_positions(ts.len()), admitted_pred(ts, f)),
{
    let all = all_positions(ts.len());
    if f.tags_include@.len() > 0 {
        let t0 = lowered(f.tags_include@)[0];
        if include_tag_unknown(ts, f) {
            let k = choose|k: int|
                0 <= k < f.tags_include@.len() && tag_positions(ts, #[trigger] lowered(f.tags_include@)[k]).len()
                    == 0;
            let tk = lowered(f.tags_include@)[k];
            assert forall|j: int| 0 <= j < all.len() implies !admitted_pred(ts, f)(#[trigger] all[j]) by {
                lemma_tag_positions_members(ts, tk, j);
                if has_tag(ts[j], tk) {
                    assert(tag_positions(ts, tk).contains(j));
                }
            }
            lemma_filter_none(all, admitted_pred(ts, f));
            assert(filter_positions(all, admitted_pred(ts, f)) =~= Seq::<int>::empty());
        } else {
            lemma_tag_positions_filter(ts, t0);
            assert forall|x: int| #[trigger] admitted_pred(ts, f)(x) implies carries_pred(ts, t0)(x) by {
                assert(has_tag(ts[x], lowered(f.tags_include@)[0]));
            }
            lemma_filter_twice(all, carries_pred(ts, t0), admitted_pred(ts, f));
        }
    }
}

/// Listed identifiers decide alone: the selection is the templates whose
/// identifier is listed, in their order, whatever the tags, the severity
/// floor (or its medium default) and the requests of the templates; two
/// filters listing the same identifiers select the same templates.
pub proof fn law_listed_ids_decide(ts: Seq<NucleiTemplate>, f: TemplateFilter, g: TemplateFilter)
    requires
        f.template_ids is Some,
        g.template_ids == f.template_ids,
    ensures
        selected_positions(ts, f) == filter_positions(all_positions(ts.len()), listed_pred(ts, f.template_ids->0@)),
        selected_positions(ts, f) == selected_positions(ts, g),
{
}

/// A floor of critical admits only critical templates, and a floor of high
/// only high and critical ones: a high template never passes a critical
/// floor.
pub proof fn law_severity_floor(ts: Seq<NucleiTemplate>, f: TemplateFilter, i: int)
    requires
        0 <= i < ts.len(),
        template_admitted(ts, f, i),
    ensures
        (f.severity_min matches Some(x) && crate::text::unicode_lower(x@) == "critical"@) ==> crate::text::unicode_lower(
            ts[i].info.severity@,
        ) == "critical"@,
        (f.severity_min matches Some(x) && crate::text::unicode_lower(x@) == "high"@) ==> (crate::text::unicode_lower(
            ts[i].info.severity@,
        ) == "critical"@ || crate::text::unicode_lower(ts[i].info.severity@) == "high"@),
{
    crate::engine::template::law_severity_ladder(crate::text::unicode_lower(ts[i].info.severity@));
}

/// Each check of a filter can refuse a template on its own: a template that
/// carries one of the exclude tags, or lacks one of the include tags (both
/// compared in ASCII lower case), or has no HTTP request, is never admitted.
/// Without a severity floor only critical, high and medium templates are
/// admitted; a template that passes the tag and request checks is admitted
/// exactly when it is severe enough.
pub proof fn law_filter_checks(ts: Seq<NucleiTemplate>, f: TemplateFilter, i: int)
    requires
        0 <= i < ts.len(),
    ensures
        (exists|k: int|
            0 <= k < f.tags_exclude@.len() && has_tag(ts[i], ascii_lower((#[trigger] f.tags_exclude@[k])@)))
            ==> !template_admitted(ts, f, i),
        (exists|k: int|
            0 <= k < f.tags_include@.len() && !has_tag(ts[i], ascii_lower((#[trigger] f.tags_include@[k])@)))
            ==> !template_admitted(ts, f, i),
        ts[i].http@.len() == 0 ==> !template_admitted(ts, f, i),
        (f.severity_min is None && template_admitted(ts, f, i)) ==> ({
            let l = crate::text::unicode_lower(ts[i].info.severity@);
            l == "critical"@ || l == "high"@ || l == "medium"@
        }),
        ((forall|k: int|
            0 <= k < f.tags_include@.len() ==> has_tag(ts[i], ascii_lower((#[trigger] f.tags_include@[k])@)))
            && (forall|k: int|
            0 <= k < f.tags_exclude@.len() ==> !has_tag(ts[i], ascii_lower((#[trigger] f.tags_exclude@[k])@)))
            && ts[i].http@.len() > 0) ==> (template_admitted(ts, f, i) <==> severity_rank(ts[i].info.severity@)
            >= min_weight(f)),
        f.severity_min is None ==> min_weight(f) == crate::engine::template::rank_of_lower("medium"@),
{
    let l = crate::text::unicode_lower(ts[i].info.severity@);
    crate::engine::template::law_severity_ladder(l);
    crate::engine::template::law_severity_ladder("medium"@);
    if exists|k: int|
        0 <= k < f.tags_exclude@.len() && has_tag(ts[i], ascii_lower((#[trigger] f.tags_exclude@[k])@)) {
        let k = choose|k: int|
            0 <= k < f.tags_exclude@.len() && has_tag(ts[i], ascii_lower((#[trigger] f.tags_exclude@[k])@));
        assert(lowered(f.tags_exclude@)[k] == ascii_lower(f.tags_exclude@[k]@));
    }
    if exists|k: int|
        0 <= k < f.tags_include@.len() && !has_tag(ts[i], ascii_lower((#[trigger] f.tags_include@[k])@)) {
        let k = choose|k: int|
            0 <= k < f.tags_include@.len() && !has_tag(ts[i], ascii_lower((#[trigger] f.tags_include@[k])@));
        assert(lowered(f.tags_include@)[k] == ascii_lower(f.tags_include@[k]@));
    }
    assert forall|k: int| 0 <= k < f.tags_include@.len() implies #[trigger] lowered(f.tags_include@)[k]
        == ascii_lower(f.tags_include@[k]@) by {}
    assert forall|k: int| 0 <= k < f.tags_exclude@.len() implies #[trigger] lowered(f.tags_exclude@)[k]
        == ascii_lower(f.tags_exclude@[k]@) by {}
}

} // verus!

