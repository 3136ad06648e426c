//! Header and footer parts of a DOCX package, found through the relationships
//! of `word/_rels/document.xml.rels`.

use vstd::prelude::*;
use crate::text::{chars_of, push_str, seq_ends_with, str_ends_with, str_eq, string_from_chars};
use crate::xml::{ends_reading, read_xml_events, unescape_value, unescaped_of, xml_events_of, XmlAttribute, XmlEvent, XmlTag};

verus! {

/// A relationship id and the package path of the part it points to.
pub struct PartReference {
    pub id: String,
    pub path: String,
}

/// Whether a relationship points to a header or to a footer part.
#[derive(Clone, Copy, Debug, PartialEq, Eq)]
pub enum PartRole {
    Header,
    Footer,
}

/// The references as (id, path) pairs.
pub open spec fn references_view(refs: Seq<PartReference>) -> Seq<(Seq<char>, Seq<char>)> {
    Seq::new(refs.len(), |k: int| (refs[k].id@, refs[k].path@))
}

/// The unescaped value of the last attribute named `key` among the first `n`
/// whose references could be resolved (a later one overrides an earlier one).
pub open spec fn last_attribute_value(attributes: Seq<Option<XmlAttribute>>, key: Seq<char>, n: int) -> Option<Seq<char>>
    decreases n,
{
    if n <= 0 || n > attributes.len() {
        None
    } else {
        match attributes[n - 1] {
            Some(a) => if a.key@ == key && unescaped_of(a.raw_value@) is Some {
                unescaped_of(a.raw_value@)
            } else {
                last_attribute_value(attributes, key, n - 1)
            },
            None => last_attribute_value(attributes, key, n - 1),
        }
    }
}

pub open spec fn relationship_attribute(tag: XmlTag, key: Seq<char>) -> Option<Seq<char>> {
    last_attribute_value(tag.attributes@, key, tag.attributes@.len() as int)
}

/// The package path of a relationship target: an absolute target loses its
/// leading `/`, a relative one is resolved against `word/`.
pub open spec fn part_path(target: Seq<char>) -> Seq<char> {
    if target.len() > 0 && target[0] == '/' { target.drop_first() } else { "word/"@ + target }
}

/// The header or footer reference a `<Relationship>` tag makes: it needs an
/// `Id`, a `Target` and a `Type` ending in `/header` or `/footer`.
pub open spec fn relationship_entry(tag: XmlTag) -> Option<(PartRole, Seq<char>, Seq<char>)> {
    if tag.name@ != "Relationship"@ {
        None
    } else {
        match (
            relationship_attribute(tag, "Id"@),
            relationship_attribute(tag, "Target"@),
            relationship_attribute(tag, "Type"@),
        ) {
            (Some(id), Some(target), Some(kind)) => if seq_ends_with(kind, "/header"@) {
                Some((PartRole::Header, id, part_path(target)))
            } else if seq_ends_with(kind, "/footer"@) {
                Some((PartRole::Footer, id, part_path(target)))
            } else {
                None
            },
            _ => None,
        }
    }
}

/// The position of `id` in `refs` at or after `i`, or `refs.len()`.
pub open spec fn reference_index(refs: Seq<(Seq<char>, Seq<char>)>, id: Seq<char>, i: int) -> int
    decreases refs.len() - i,
{
    if i < 0 || i >= refs.len() {
        refs.len() as int
    } else if refs[i].0 == id {
        i
    } else {
        reference_index(refs, id, i + 1)
    }
}

/// Map-style insertion: a known id gets the new path in place, a new id is
/// appended.
pub open spec fn insert_reference(refs: Seq<(Seq<char>, Seq<char>)>, id: Seq<char>, path: Seq<char>) -> Seq<(Seq<char>, Seq<char>)> {
    let k = reference_index(refs, id, 0);
    if k < refs.len() { refs.update(k, (id, path)) } else { refs.push((id, path)) }
}

/// The path recorded for `id`, if any.
pub open spec fn reference_lookup(refs: Seq<(Seq<char>, Seq<char>)>, id: Seq<char>) -> Option<Seq<char>> {
    let k = reference_index(refs, id, 0);
    if k < refs.len() { Some(refs[k].1) } else { None }
}

/// No id is recorded twice.
pub open spec fn distinct_ids(refs: Seq<(Seq<char>, Seq<char>)>) -> bool {
    forall|i: int, j: int| 0 <= i < j < refs.len() ==> refs[i].0 != refs[j].0
}

proof fn lemma_reference_index(refs: Seq<(Seq<char>, Seq<char>)>, id: Seq<char>, i: int)
    requires
        0 <= i <= refs.len(),
    ensures
        i <= reference_index(refs, id, i) <= refs.len(),
        reference_index(refs, id, i) < refs.len() ==> refs[reference_index(refs, id, i)].0 == id,
        forall|j: int| i <= j < reference_index(refs, id, i) ==> refs[j].0 != id,
    decreases refs.len() - i,
{
    if i < refs.len() && refs[i].0 != id {
        lemma_reference_index(refs, id, i + 1);
    }
}

/// Recording a reference keeps the ids distinct.
pub proof fn law_insert_keeps_ids_distinct(refs: Seq<(Seq<char>, Seq<char>)>, id: Seq<char>, path: Seq<char>)
    requires
        distinct_ids(refs),
    ensures
        distinct_ids(insert_reference(refs, id, path)),
{
    lemma_reference_index(refs, id, 0);
}

/// After recording `id -> path`, `id` looks up `path`, and every other id
/// looks up what it did before.
pub proof fn law_lookup_after_insert(refs: Seq<(Seq<char>, Seq<char>)>, id: Seq<char>, path: Seq<char>, other: Seq<char>)
    requires
        distinct_ids(refs),
    ensures
        reference_lookup(insert_reference(refs, id, path), id) == Some(path),
        other != id ==> reference_lookup(insert_reference(refs, id, path), other) == reference_lookup(refs, other),
{
    let after = insert_reference(refs, id, path);
    lemma_reference_index(refs, id, 0);
    lemma_reference_index(refs, other, 0);
    lemma_reference_index(after, id, 0);
    lemma_reference_index(after, other, 0);
    law_insert_keeps_ids_distinct(refs, id, path);
    let k = reference_index(refs, id, 0);
    let ka = reference_index(after, id, 0);
    if k < refs.len() {
        assert(after[k].0 == id);
        if ka < k {
            assert(after[ka] == refs[ka]);
        }
        assert(ka == k);
    } else {
        assert(after[refs.len() as int].0 == id);
        if ka < refs.len() {
            assert(after[ka] == refs[ka]);
        }
        assert(ka == refs.len());
    }
    if other != id {
        let o = reference_index(refs, other, 0);
        let oa = reference_index(after, other, 0);
        assert forall|j: int| 0 <= j < refs.len() implies #[trigger] after[j].0 == other <==> refs[j].0 == other by {
            if j != k {
                assert(after[j] == refs[j]);
            }
        }
        if k >= refs.len() {
            assert(after[refs.len() as int].0 != other);
        }
        if o < refs.len() {
            assert(after[o].0 == other);
            if oa < o {
                assert(refs[oa].0 == other);
            }
            assert(oa == o);
            assert(after[o] == refs[o]);
        } else {
            if oa < after.len() {
                assert(after[oa].0 == other);
                if oa < refs.len() {
                    assert(refs[oa].0 == other);
                }
            }
        }
    }
}

/// The header and the footer references of any relationships part name each
/// relationship id once.
pub proof fn law_relationship_ids_distinct(events: Seq<XmlEvent>)
    ensures
        distinct_ids(header_footer_relationships(events).0),
        distinct_ids(header_footer_relationships(events).1),
{
    lemma_relationships_distinct(events, 0, Seq::empty(), Seq::empty());
}

proof fn lemma_relationships_distinct(
    events: Seq<XmlEvent>,
    i: int,
    headers: Seq<(Seq<char>, Seq<char>)>,
    footers: Seq<(Seq<char>, Seq<char>)>,
)
    requires
        distinct_ids(headers),
        distinct_ids(footers),
    ensures
        distinct_ids(relationships_from(events, i, headers, footers).0),
        distinct_ids(relationships_from(events, i, headers, footers).1),
    decreases events.len() - i,
{
    if !(i < 0 || i >= events.len() || ends_reading(events[i])) {
        let entry = match events[i] {
            XmlEvent::Start(tag) => relationship_entry(tag),
            XmlEvent::Empty(tag) => relationship_entry(tag),
            _ => None,
        };
        match entry {
            Some((PartRole::Header, id, path)) => {
                law_insert_keeps_ids_distinct(headers, id, path);
                lemma_relationships_distinct(events, i + 1, insert_reference(headers, id, path), footers);
            },
            Some((PartRole::Footer, id, path)) => {
                law_insert_keeps_ids_distinct(footers, id, path);
                lemma_relationships_distinct(events, i + 1, headers, insert_reference(footers, id, path));
            },
            None => {
                lemma_relationships_distinct(events, i + 1, headers, footers);
            },
        }
    }
}

/// The header and footer references of `events[i..]`, added to the ones given.
pub open spec fn relationships_from(
    events: Seq<XmlEvent>,
    i: int,
    headers: Seq<(Seq<char>, Seq<char>)>,
    footers: Seq<(Seq<char>, Seq<char>)>,
) -> (Seq<(Seq<char>, Seq<char>)>, Seq<(Seq<char>, Seq<char>)>)
    decreases events.len() - i,
{
    if i < 0 || i >= events.len() || ends_reading(events[i]) {
        (headers, footers)
    } else {
        let entry = match events[i] {
            XmlEvent::Start(tag) => relationship_entry(tag),
            XmlEvent::Empty(tag) => relationship_entry(tag),
            _ => None,
        };
        match entry {
            Some((PartRole::Header, id, path)) => relationships_from(events, i + 1, insert_reference(headers, id, path), footers),
            Some((PartRole::Footer, id, path)) => relationships_from(events, i + 1, headers, insert_reference(footers, id, path)),
            None => relationships_from(events, i + 1, headers, footers),
        }
    }
}

/// The header and the footer references of a relationships part.
pub open spec fn header_footer_relationships(events: Seq<XmlEvent>) -> (Seq<(Seq<char>, Seq<char>)>, Seq<(Seq<char>, Seq<char>)>) {
    relationships_from(events, 0, Seq::empty(), Seq::empty())
}

fn last_value(tag: &XmlTag, key: &str) -> (value: Option<String>)
    ensures
        match value {
            Some(v) => relationship_attribute(*tag, key@) == Some(v@),
            None => relationship_attribute(*tag, key@) is None,
        },
{
    let mut found: Option<String> = None;
    let mut i: usize = 0;
    while i < tag.attributes.len()
        invariant
            i <= tag.attributes@.len(),
            match found {
                Some(v) => last_attribute_value(tag.attributes@, key@, i as int) == Some(v@),
                None => last_attribute_value(tag.attributes@, key@, i as int) is None,
            },
        decreases tag.attributes@.len() - i,
    {
        if let Some(a) = &tag.attributes[i] {
            if str_eq(a.key.as_str(), key) {
                if let Some(v) = unescape_value(a.raw_value.as_str()) {
                    found = Some(v);
                }
            }
        }
        i = i + 1;
    }
    found
}

fn resolve_part_path(target: &str) -> (path: String)
    ensures
        path@ == part_path(target@),
{
    let cs = chars_of(target);
    if cs.len() > 0 && cs[0] == '/' {
        let path = string_from_chars(&cs, 1, cs.len());
        assert(cs@.subrange(1, cs@.len() as int) =~= target@.drop_first());
        path
    } else {
        let mut path = String::new();
        push_str(&mut path, "word/");
        push_str(&mut path, target);
        path
    }
}

fn relationship_of(tag: &XmlTag) -> (entry: Option<(PartRole, String, String)>)
    ensures
        match entry {
            Some((role, id, path)) => relationship_entry(*tag) == Some((role, id@, path@)),
            None => relationship_entry(*tag) is None,
        },
{
    if !str_eq(tag.name.as_str(), "Relationship") {
        return None;
    }
    let id = last_value(tag, "Id");
    let target = last_value(tag, "Target");
    let kind = last_value(tag, "Type");
    match (id, target, kind) {
        (Some(id), Some(target), Some(kind)) => {
            if str_ends_with(kind.as_str(), "/header") {
                Some((PartRole::Header, id, resolve_part_path(target.as_str())))
            } else if str_ends_with(kind.as_str(), "/footer") {
                Some((PartRole::Footer, id, resolve_part_path(target.as_str())))
            } else {
                None
            }
        },
        _ => None,
    }
}

/// Records that relationship `id` points to `path`, replacing the path an
/// earlier relationship with the same id recorded.
pub fn insert_part_reference(refs: &mut Vec<PartReference>, id: String, path: String)
    ensures
        references_view(final(refs)@) == insert_reference(references_view(old(refs)@), id@, path@),
{
    let ghost before = references_view(refs@);
    let mut i: usize = 0;
    while i < refs.len()
        invariant
            i <= refs@.len(),
            refs@ == old(refs)@,
            before == references_view(refs@),
            reference_index(before, id@, 0) == reference_index(before, id@, i as int),
        decreases refs@.len() - i,
    {
        if str_eq(refs[i].id.as_str(), id.as_str()) {
            refs[i] = PartReference { id, path };
            assert(references_view(refs@) =~= before.update(i as int, (id@, path@)));
            return;
        }
        i = i + 1;
    }
    refs.push(PartReference { id, path });
    assert(references_view(refs@) =~= before.push((id@, path@)));
}

/// The header and the footer relationships of an event sequence, each as
/// (id, path) references in the order their ids first appear; events after
/// the first end of input or error are ignored.
pub fn relationships_from_events(events: &Vec<XmlEvent>) -> (parts: (Vec<PartReference>, Vec<PartReference>))
    ensures
        (references_view(parts.0@), references_view(parts.1@)) == header_footer_relationships(events@),
{
    let mut headers: Vec<PartReference> = Vec::new();
    let mut footers: Vec<PartReference> = Vec::new();
    assert(references_view(headers@) =~= Seq::empty());
    assert(references_view(footers@) =~= Seq::empty());
    let mut i: usize = 0;
    while i < events.len()
        invariant
            i <= events@.len(),
            relationships_from(events@, i as int, references_view(headers@), references_view(footers@))
                == header_footer_relationships(events@),
        decreases events@.len() - i,
    {
        let stop = match &events[i] {
            XmlEvent::Eof | XmlEvent::Error => true,
            _ => false,
        };
        if stop {
            return (headers, footers);
        }
        let entry = match &events[i] {
            XmlEvent::Start(tag) => relationship_of(tag),
            XmlEvent::Empty(tag) => relationship_of(tag),
            _ => None,
        };
        match entry {
            Some((PartRole::Header, id, path)) => insert_part_reference(&mut headers, id, path),
            Some((PartRole::Footer, id, path)) => insert_part_reference(&mut footers, id, path),
            None => {},
        }
        i = i + 1;
    }
    (headers, footers)
}

/// The header and footer parts that `word/_rels/document.xml.rels` references:
/// those of `header_footer_relationships` over the events read from it.
pub fn scan_header_footer_relationships(rels_xml: &str) -> (parts: (Vec<PartReference>, Vec<PartReference>))
    ensures
        (references_view(parts.0@), references_view(parts.1@)) == header_footer_relationships(xml_events_of(rels_xml@)),
{
    let events = read_xml_events(rels_xml);
    relationships_from_events(&events)
}

} // verus!
