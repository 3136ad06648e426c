//! Resolution of DOCX numbering definitions (`word/numbering.xml`): each
//! numbering instance (`<w:num>`) takes the levels of its abstract numbering,
//! applies its level overrides, and turns every level into a list style.

use std::collections::{BTreeMap, HashMap};
use vstd::prelude::*;
use crate::ir::{ListKind, ListLevelStyle};
use crate::lists::{
    build_typst_numbering_pattern, level_formats, level_kind, level_kind_spec, numbering_pattern, NumberingMap,
    RawListLevel, ResolvedListLevel, ResolvedNumbering,
};
use crate::text::push_str;
use crate::typst_text::{nat_digits, opt_view, push_u64};

verus! {

broadcast use vstd::std_specs::btree::group_btree_axioms, vstd::std_specs::hash::group_hash_axioms;

/// An abstract numbering (`<w:abstractNum>`): its id and its levels, each with
/// its level index (`w:ilvl`).
pub struct AbstractNumbering {
    pub id: usize,
    pub levels: Vec<(u32, RawListLevel)>,
}

/// A level override of a numbering instance (`<w:lvlOverride>`).
pub struct LevelOverride {
    pub level: u32,
    /// A replacement level definition (`<w:lvl>`).
    pub override_level: Option<RawListLevel>,
    /// A replacement start value (`<w:startOverride>`).
    pub override_start: Option<u32>,
}

/// A numbering instance (`<w:num>`).
pub struct NumberingInstance {
    pub id: usize,
    pub abstract_num_id: usize,
    pub level_overrides: Vec<LevelOverride>,
}

/// The numbering part: abstract numberings and numbering instances.
pub struct NumberingDefinitions {
    pub abstract_nums: Vec<AbstractNumbering>,
    pub numberings: Vec<NumberingInstance>,
}

/// A level as plain values: start, number format, level text.
pub open spec fn raw_level_view(l: RawListLevel) -> (u32, Seq<char>, Seq<char>) {
    (l.start, l.number_format@, l.level_text@)
}

pub open spec fn level_views(m: Map<u32, RawListLevel>) -> Map<u32, (u32, Seq<char>, Seq<char>)> {
    m.map_values(|l: RawListLevel| raw_level_view(l))
}

impl RawListLevel {
    pub fn duplicate(&self) -> (copy: RawListLevel)
        ensures
            raw_level_view(copy) == raw_level_view(*self),
    {
        RawListLevel { start: self.start, number_format: self.number_format.clone(), level_text: self.level_text.clone() }
    }
}

/// The first abstract numbering with id `id`, at or after position `i`.
pub open spec fn find_abstract(abstract_nums: Seq<AbstractNumbering>, id: usize, i: int) -> Option<AbstractNumbering>
    decreases abstract_nums.len() - i,
{
    if i < 0 || i >= abstract_nums.len() {
        None
    } else if abstract_nums[i].id == id {
        Some(abstract_nums[i])
    } else {
        find_abstract(abstract_nums, id, i + 1)
    }
}

/// The first `n` levels of an abstract numbering, by index; a later level with
/// the same index replaces an earlier one.
pub open spec fn abstract_levels(levels: Seq<(u32, RawListLevel)>, n: int) -> Map<u32, (u32, Seq<char>, Seq<char>)>
    decreases n,
{
    if n <= 0 || n > levels.len() {
        Map::empty()
    } else {
        abstract_levels(levels, n - 1).insert(levels[n - 1].0, raw_level_view(levels[n - 1].1))
    }
}

/// The level a start override creates where no level is defined: decimal
/// numbering with the text `%n.`, `n` being the level index plus one.
pub open spec fn default_override_level(level: u32, start: u32) -> (u32, Seq<char>, Seq<char>) {
    (start, "decimal"@, seq!['%'] + nat_digits((level + 1) as nat) + seq!['.'])
}

/// A replacement level definition takes the level's place.
pub open spec fn with_replacement(m: Map<u32, (u32, Seq<char>, Seq<char>)>, o: LevelOverride) -> Map<u32, (u32, Seq<char>, Seq<char>)> {
    match o.override_level {
        Some(l) => m.insert(o.level, raw_level_view(l)),
        None => m,
    }
}

/// A replacement start changes the level's start, or creates the level.
pub open spec fn with_start(m: Map<u32, (u32, Seq<char>, Seq<char>)>, o: LevelOverride) -> Map<u32, (u32, Seq<char>, Seq<char>)> {
    match o.override_start {
        Some(start) => if m.contains_key(o.level) {
            m.insert(o.level, (start, m[o.level].1, m[o.level].2))
        } else {
            m.insert(o.level, default_override_level(o.level, start))
        },
        None => m,
    }
}

/// One level override: a replacement definition, then a replacement start.
pub open spec fn apply_override(m: Map<u32, (u32, Seq<char>, Seq<char>)>, o: LevelOverride) -> Map<u32, (u32, Seq<char>, Seq<char>)> {
    with_start(with_replacement(m, o), o)
}

/// The levels after the first `n` overrides.
pub open spec fn overridden_levels(
    base: Map<u32, (u32, Seq<char>, Seq<char>)>,
    overrides: Seq<LevelOverride>,
    n: int,
) -> Map<u32, (u32, Seq<char>, Seq<char>)>
    decreases n,
{
    if n <= 0 || n > overrides.len() {
        base
    } else {
        apply_override(overridden_levels(base, overrides, n - 1), overrides[n - 1])
    }
}

/// The levels of a numbering instance: those of the first abstract numbering
/// with its abstract id (none if there is none), with its overrides applied.
pub open spec fn instance_levels(num: NumberingInstance, abstract_nums: Seq<AbstractNumbering>) -> Map<u32, (u32, Seq<char>, Seq<char>)> {
    let base = match find_abstract(abstract_nums, num.abstract_num_id, 0) {
        Some(a) => abstract_levels(a.levels@, a.levels@.len() as int),
        None => Map::empty(),
    };
    overridden_levels(base, num.level_overrides@, num.level_overrides@.len() as int)
}

/// A resolved level as plain values: kind, numbering pattern, whether the
/// pattern shows parent levels, start.
pub open spec fn resolved_level_spec(
    index: u32,
    raw: (u32, Seq<char>, Seq<char>),
    formats: Map<u32, Seq<char>>,
) -> (ListKind, Option<Seq<char>>, bool, u32) {
    let kind = level_kind_spec(raw.1);
    if kind == ListKind::Ordered {
        match numbering_pattern(raw.2, index, formats) {
            Some((pattern, full)) => (kind, Some(pattern), full, raw.0),
            None => (kind, None, false, raw.0),
        }
    } else {
        (kind, None, false, raw.0)
    }
}

/// Every level resolved against the number formats of all the levels.
pub open spec fn resolved_levels_spec(raw: Map<u32, (u32, Seq<char>, Seq<char>)>) -> Map<u32, (ListKind, Option<Seq<char>>, bool, u32)> {
    Map::new(
        |k: u32| raw.contains_key(k),
        |k: u32| resolved_level_spec(k, raw[k], raw.map_values(|r: (u32, Seq<char>, Seq<char>)| r.1)),
    )
}

pub open spec fn resolved_level_view(r: ResolvedListLevel) -> (ListKind, Option<Seq<char>>, bool, u32) {
    (r.style.kind, opt_view(&r.style.numbering_pattern), r.style.full_numbering, r.start)
}

/// The resolved levels as plain values; no level carries a marker of its own.
pub open spec fn resolved_numbering_is(r: ResolvedNumbering, expected: Map<u32, (ListKind, Option<Seq<char>>, bool, u32)>) -> bool {
    &&& r.levels@.map_values(|l: ResolvedListLevel| resolved_level_view(l)) == expected
    &&& forall|k: u32| #[trigger] r.levels@.contains_key(k) ==> r.levels@[k].style.marker_text is None
        && r.levels@[k].style.marker_style is None
}

fn find_abstract_index(abstract_nums: &Vec<AbstractNumbering>, id: usize) -> (found: Option<usize>)
    ensures
        match found {
            Some(i) => i < abstract_nums@.len() && find_abstract(abstract_nums@, id, 0) == Some(abstract_nums@[i as int]),
            None => find_abstract(abstract_nums@, id, 0) is None,
        },
{
    let mut i: usize = 0;
    while i < abstract_nums.len()
        invariant
            i <= abstract_nums@.len(),
            find_abstract(abstract_nums@, id, i as int) == find_abstract(abstract_nums@, id, 0),
        decreases abstract_nums@.len() - i,
    {
        if abstract_nums[i].id == id {
            return Some(i);
        }
        i = i + 1;
    }
    None
}

/// The text `%n.` of a level made by a start override.
fn default_level_text(level: u32) -> (text: String)
    ensures
        text@ == seq!['%'] + nat_digits((level + 1) as nat) + seq!['.'],
{
    let mut text = String::new();
    push_str(&mut text, "%");
    push_u64(&mut text, level as u64 + 1);
    push_str(&mut text, ".");
    proof {
        reveal_strlit("%");
        reveal_strlit(".");
    }
    text
}

proof fn lemma_push_contains(s: Seq<u32>, x: u32)
    ensures
        forall|k: u32| s.push(x).contains(k) <==> (s.contains(k) || k == x),
{
    assert forall|k: u32| s.push(x).contains(k) <==> (s.contains(k) || k == x) by {
        if s.contains(k) {
            let w = choose|w: int| 0 <= w < s.len() && s[w] == k;
            assert(s.push(x)[w] == k);
        }
        if k == x {
            assert(s.push(x)[s.len() as int] == k);
        }
        if s.push(x).contains(k) {
            let w = choose|w: int| 0 <= w < s.push(x).len() && s.push(x)[w] == k;
            if w < s.len() {
                assert(s[w] == k);
            }
        }
    }
}

/// Inserts a level and records its index.
fn insert_level(raw: &mut BTreeMap<u32, RawListLevel>, keys: &mut Vec<u32>, index: u32, level: RawListLevel)
    requires
        forall|k: u32| old(raw)@.contains_key(k) <==> old(keys)@.contains(k),
    ensures
        final(raw)@ == old(raw)@.insert(index, level),
        level_views(final(raw)@) == level_views(old(raw)@).insert(index, raw_level_view(level)),
        forall|k: u32| final(raw)@.contains_key(k) <==> final(keys)@.contains(k),
{
    let ghost before = keys@;
    raw.insert(index, level);
    keys.push(index);
    proof {
        lemma_push_contains(before, index);
        assert(level_views(raw@) =~= level_views(old(raw)@).insert(index, raw_level_view(level)));
        assert forall|k: u32| raw@.contains_key(k) <==> keys@.contains(k) by {
            assert(keys@ == before.push(index));
            assert(old(raw)@.contains_key(k) <==> before.contains(k));
        }
    }
}

/// The raw levels of a numbering instance, with the list of their indices.
fn instance_raw_levels(num: &NumberingInstance, numberings: &NumberingDefinitions) -> (levels: (BTreeMap<u32, RawListLevel>, Vec<u32>))
    ensures
        level_views(levels.0@) == instance_levels(*num, numberings.abstract_nums@),
        forall|k: u32| levels.0@.contains_key(k) <==> levels.1@.contains(k),
{
    let mut raw: BTreeMap<u32, RawListLevel> = BTreeMap::new();
    let mut keys: Vec<u32> = Vec::new();
    let ghost base: Map<u32, (u32, Seq<char>, Seq<char>)> = match find_abstract(numberings.abstract_nums@, num.abstract_num_id, 0) {
        Some(a) => abstract_levels(a.levels@, a.levels@.len() as int),
        None => Map::empty(),
    };
    assert(level_views(raw@) =~= Map::empty());
    match find_abstract_index(&numberings.abstract_nums, num.abstract_num_id) {
        Some(ai) => {
            let abs = &numberings.abstract_nums[ai];
            let mut j: usize = 0;
            while j < abs.levels.len()
                invariant
                    j <= abs.levels@.len(),
                    level_views(raw@) == abstract_levels(abs.levels@, j as int),
                    forall|k: u32| raw@.contains_key(k) <==> keys@.contains(k),
                decreases abs.levels@.len() - j,
            {
                let (index, level) = &abs.levels[j];
                insert_level(&mut raw, &mut keys, *index, level.duplicate());
                j = j + 1;
            }
        },
        None => {},
    }
    let overrides = &num.level_overrides;
    let mut i: usize = 0;
    while i < overrides.len()
        invariant
            i <= overrides@.len(),
            overrides@ == num.level_overrides@,
            level_views(raw@) == overridden_levels(base, overrides@, i as int),
            forall|k: u32| raw@.contains_key(k) <==> keys@.contains(k),
        decreases overrides@.len() - i,
    {
        let o = &overrides[i];
        let ghost before = level_views(raw@);
        if let Some(level) = &o.override_level {
            insert_level(&mut raw, &mut keys, o.level, level.duplicate());
        }
        assert(level_views(raw@) == with_replacement(before, *o));
        let ghost replaced = level_views(raw@);
        if let Some(start) = o.override_start {
            let updated = match raw.get(&o.level) {
                Some(existing) => RawListLevel {
                    start,
                    number_format: existing.number_format.clone(),
                    level_text: existing.level_text.clone(),
                },
                None => {
                    let mut decimal = String::new();
                    push_str(&mut decimal, "decimal");
                    proof {
                        reveal_strlit("decimal");
                    }
                    RawListLevel { start, number_format: decimal, level_text: default_level_text(o.level) }
                },
            };
            insert_level(&mut raw, &mut keys, o.level, updated);
        }
        assert(level_views(raw@) == with_start(replaced, *o));
        i = i + 1;
    }
    (raw, keys)
}

/// Resolves a numbering instance: its levels (abstract levels with the
/// overrides applied) become list styles, ordered levels with their Typst
/// numbering pattern.
pub fn resolve_numbering(num: &NumberingInstance, numberings: &NumberingDefinitions) -> (resolved: ResolvedNumbering)
    ensures
        resolved_numbering_is(resolved, resolved_levels_spec(instance_levels(*num, numberings.abstract_nums@))),
{
    let (raw, keys) = instance_raw_levels(num, numberings);
    let ghost rv = level_views(raw@);
    assert(level_formats(raw@) =~= rv.map_values(|r: (u32, Seq<char>, Seq<char>)| r.1));
    let mut levels: BTreeMap<u32, ResolvedListLevel> = BTreeMap::new();
    let mut j: usize = 0;
    while j < keys.len()
        invariant
            j <= keys@.len(),
            forall|k: u32| raw@.contains_key(k) <==> keys@.contains(k),
            rv == level_views(raw@),
            level_formats(raw@) == rv.map_values(|r: (u32, Seq<char>, Seq<char>)| r.1),
            forall|k: u32| levels@.contains_key(k) <==> keys@.take(j as int).contains(k),
            forall|k: u32| #[trigger] levels@.contains_key(k) ==> resolved_level_view(levels@[k]) == resolved_levels_spec(rv)[k]
                && levels@[k].style.marker_text is None && levels@[k].style.marker_style is None,
        decreases keys@.len() - j,
    {
        let index = keys[j];
        assert(keys@.contains(index)) by {
            assert(keys@[j as int] == index);
        }
        proof {
            assert(keys@.take(j + 1) == keys@.take(j as int).push(index));
            lemma_push_contains(keys@.take(j as int), index);
        }
        if let Some(level) = raw.get(&index) {
            let kind = level_kind(level.number_format.as_str());
            let (numbering_pattern, full_numbering) = match kind {
                ListKind::Ordered => match build_typst_numbering_pattern(level.level_text.as_str(), index, &raw) {
                    Some((pattern, full)) => (Some(pattern), full),
                    None => (None, false),
                },
                _ => (None, false),
            };
            let resolved = ResolvedListLevel {
                style: ListLevelStyle { kind, numbering_pattern, full_numbering, marker_text: None, marker_style: None },
                start: level.start,
            };
            assert(resolved_level_view(resolved) == resolved_levels_spec(rv)[index]);
            levels.insert(index, resolved);
        }
        j = j + 1;
    }
    assert(keys@.take(keys@.len() as int) == keys@);
    let resolved = ResolvedNumbering { levels };
    assert(resolved.levels@.map_values(|l: ResolvedListLevel| resolved_level_view(l)) =~= resolved_levels_spec(rv));
    resolved
}

/// The last numbering instance with id `id` among the first `n`.
pub open spec fn last_instance(nums: Seq<NumberingInstance>, id: usize, n: int) -> Option<NumberingInstance>
    decreases n,
{
    if n <= 0 || n > nums.len() {
        None
    } else if nums[n - 1].id == id {
        Some(nums[n - 1])
    } else {
        last_instance(nums, id, n - 1)
    }
}

/// Every numbering instance resolved, by id; of two instances with one id the
/// later one counts.
pub fn build_numbering_map(numberings: &NumberingDefinitions) -> (map: NumberingMap)
    ensures
        forall|id: usize| #[trigger] map@.contains_key(id)
            <==> last_instance(numberings.numberings@, id, numberings.numberings@.len() as int) is Some,
        forall|id: usize| #[trigger] map@.contains_key(id) ==> resolved_numbering_is(
            map@[id],
            resolved_levels_spec(instance_levels(
                last_instance(numberings.numberings@, id, numberings.numberings@.len() as int)->0,
                numberings.abstract_nums@,
            )),
        ),
{
    let mut map: NumberingMap = HashMap::new();
    let nums = &numberings.numberings;
    let mut i: usize = 0;
    while i < nums.len()
        invariant
            i <= nums@.len(),
            nums@ == numberings.numberings@,
            forall|id: usize| #[trigger] map@.contains_key(id) <==> last_instance(nums@, id, i as int) is Some,
            forall|id: usize| #[trigger] map@.contains_key(id) ==> resolved_numbering_is(
                map@[id],
                resolved_levels_spec(instance_levels(last_instance(nums@, id, i as int)->0, numberings.abstract_nums@)),
            ),
        decreases nums@.len() - i,
    {
        let num = &nums[i];
        let resolved = resolve_numbering(num, numberings);
        map.insert(num.id, resolved);
        i = i + 1;
    }
    map
}

/// A start override gives its level that start value, keeping the level's
/// format and text when it only changes the start; other levels are untouched.
pub proof fn law_start_override(m: Map<u32, (u32, Seq<char>, Seq<char>)>, o: LevelOverride)
    requires
        o.override_start is Some,
    ensures
        apply_override(m, o).contains_key(o.level),
        apply_override(m, o)[o.level].0 == o.override_start->0,
        o.override_level is None && m.contains_key(o.level) ==> apply_override(m, o)[o.level].1 == m[o.level].1
            && apply_override(m, o)[o.level].2 == m[o.level].2,
        forall|k: u32| k != o.level ==> (#[trigger] apply_override(m, o).contains_key(k) == m.contains_key(k))
            && (m.contains_key(k) ==> apply_override(m, o)[k] == m[k]),
{
}

} // verus!
