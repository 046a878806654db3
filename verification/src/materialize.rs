//! The entry materializer: the algorithmic heart of the pipeline.
//!
//! Each decoded entry is dispatched on its name.  The reserved name
//! `"bevy_components"` marks a nested map from fully-qualified type paths to
//! values; any other entry names a single type by convention.  A name that
//! resolves in the catalog yields one materialized record whose value text is
//! rewritten into the syntax the generic deserializer accepts; a name that
//! does not resolve contributes nothing and is skipped; a value text the
//! deserializer refuses is fatal for the whole materialization.

use vstd::prelude::*;
use crate::catalog::{TypeCatalog, TypeDescriptor, find_path, find_short};
use crate::decode::{
    blob_entries, blob_ok, decode_blob, deserializer_accepts, value_text_accepted, RawValue,
};
use crate::text::{
    derive_short_name, is_paren, lemma_unwrap_wrapped, nested_frame, nested_frame_spec,
    short_type_name, single_frame, single_frame_spec, str_eq, unwrap_parens, unwrap_parens_spec,
};

verus! {

/// One materialized record: a typed instance ready for insertion, carried as
/// the canonical path of its type, the framed value text the deserializer
/// accepted, and whether the type can be inserted into the store.
#[derive(Debug)]
pub struct MaterializedEntry {
    pub type_path: String,
    pub value_text: String,
    pub insertable: bool,
}

/// The mathematical content of a list of materialized records.
pub open spec fn entry_views(v: Seq<MaterializedEntry>) -> Seq<(Seq<char>, Seq<char>, bool)> {
    v.map(|i: int, e: MaterializedEntry| (e.type_path@, e.value_text@, e.insertable))
}

/// The reserved entry name marking a nested multi-type map.
pub open spec fn reserved_key() -> Seq<char> {
    "bevy_components"@
}

/// What a single-typed entry contributes: nothing when its derived short
/// name does not resolve; one record when it does and the framed text is
/// accepted; a fatal failure (`None`) when the framed text is refused.
pub open spec fn single_contrib(
    name: Seq<char>,
    is_text: bool,
    text: Seq<char>,
    descs: Seq<TypeDescriptor>,
) -> Option<Seq<(Seq<char>, Seq<char>, bool)>> {
    let short = derive_short_name(name);
    match find_short(descs, short) {
        None => Some(Seq::empty()),
        Some(d) => {
            let inner = if is_text {
                unwrap_parens_spec(text)
            } else {
                text
            };
            let framed = single_frame_spec(short, inner);
            if deserializer_accepts(framed) {
                Some(seq![(d.type_path@, framed, d.insertable)])
            } else {
                None
            }
        },
    }
}

/// What one pair of the nested multi-type map contributes.
pub open spec fn nested_item_contrib(
    key: Seq<char>,
    text: Seq<char>,
    descs: Seq<TypeDescriptor>,
) -> Option<Seq<(Seq<char>, Seq<char>, bool)>> {
    match find_path(descs, key) {
        None => Some(Seq::empty()),
        Some(d) => {
            let framed = nested_frame_spec(d.type_path@, text);
            if deserializer_accepts(framed) {
                Some(seq![(d.type_path@, framed, d.insertable)])
            } else {
                None
            }
        },
    }
}

/// What the whole nested map contributes; a fatal pair aborts the group.
pub open spec fn nested_group_contrib(
    nes: Seq<(Seq<char>, bool, Seq<char>)>,
    descs: Seq<TypeDescriptor>,
) -> Option<Seq<(Seq<char>, Seq<char>, bool)>>
    decreases nes.len(),
{
    if nes.len() <= 0 {
        Some(Seq::empty())
    } else {
        match nested_item_contrib(nes[0].0, nes[0].2, descs) {
            None => None,
            Some(first) => match nested_group_contrib(nes.skip(1), descs) {
                None => None,
                Some(rest) => Some(first + rest),
            },
        }
    }
}

/// What one decoded entry contributes, dispatching on the reserved name.
pub open spec fn entry_contrib(
    name: Seq<char>,
    is_text: bool,
    text: Seq<char>,
    descs: Seq<TypeDescriptor>,
) -> Option<Seq<(Seq<char>, Seq<char>, bool)>> {
    if name == reserved_key() {
        if !blob_ok(text) {
            None
        } else {
            nested_group_contrib(blob_entries(text), descs)
        }
    } else {
        single_contrib(name, is_text, text, descs)
    }
}

/// What a sequence of decoded entries contributes, in order.
pub open spec fn entries_contrib(
    es: Seq<(Seq<char>, bool, Seq<char>)>,
    descs: Seq<TypeDescriptor>,
) -> Option<Seq<(Seq<char>, Seq<char>, bool)>>
    decreases es.len(),
{
    if es.len() <= 0 {
        Some(Seq::empty())
    } else {
        match entry_contrib(es[0].0, es[0].1, es[0].2, descs) {
            None => None,
            Some(first) => match entries_contrib(es.skip(1), descs) {
                None => None,
                Some(rest) => Some(first + rest),
            },
        }
    }
}

/// What a whole metadata blob materializes to against a catalog, or `None`
/// when the blob is malformed or some resolved value text is refused.
pub open spec fn materialize_spec(
    blob: Seq<char>,
    descs: Seq<TypeDescriptor>,
) -> Option<Seq<(Seq<char>, Seq<char>, bool)>> {
    if !blob_ok(blob) {
        None
    } else {
        entries_contrib(blob_entries(blob), descs)
    }
}

/// A fatal materialization failure.
#[derive(Debug, PartialEq, Eq, Structural)]
pub enum MaterializeError {
    /// The top-level metadata text is not a well-formed map.
    MalformedBlob,
    /// An entry's processing failed fatally: its nested multi-type map is
    /// not well-formed text, or a resolved entry's rewritten value text was
    /// refused by the deserializer.
    MalformedEntry,
}

/// No silent drops: when every entry of a decoded blob is a single-typed
/// entry whose derived short name resolves in the catalog, a successful
/// materialization yields exactly one record per decoded entry.
pub proof fn lemma_all_resolved_count(
    es: Seq<(Seq<char>, bool, Seq<char>)>,
    descs: Seq<TypeDescriptor>,
)
    requires
        forall|i: int| 0 <= i < es.len() ==> (#[trigger] es[i]).0 != reserved_key(),
        forall|i: int|
            0 <= i < es.len() ==> find_short(descs, derive_short_name((#[trigger] es[i]).0))
                is Some,
        entries_contrib(es, descs) is Some,
    ensures
        entries_contrib(es, descs).unwrap().len() == es.len(),
    decreases es.len(),
{
    if es.len() > 0 {
        assert(entry_contrib(es[0].0, es[0].1, es[0].2, descs) is Some);
        assert(entry_contrib(es[0].0, es[0].1, es[0].2, descs).unwrap().len() == 1);
        assert(forall|i: int|
            0 <= i < es.skip(1).len() ==> (#[trigger] es.skip(1)[i]) == es[i + 1]);
        lemma_all_resolved_count(es.skip(1), descs);
    }
}

/// The same count law at blob level: a successfully materialized blob whose
/// entries all resolve yields exactly as many records as decoded entries.
pub proof fn lemma_all_resolved_blob(blob: Seq<char>, descs: Seq<TypeDescriptor>)
    requires
        materialize_spec(blob, descs) is Some,
        forall|i: int|
            0 <= i < blob_entries(blob).len() ==> (#[trigger] blob_entries(blob)[i]).0
                != reserved_key(),
        forall|i: int|
            0 <= i < blob_entries(blob).len() ==> find_short(
                descs,
                derive_short_name((#[trigger] blob_entries(blob)[i]).0),
            ) is Some,
    ensures
        materialize_spec(blob, descs).unwrap().len() == blob_entries(blob).len(),
{
    lemma_all_resolved_count(blob_entries(blob), descs);
}

/// No unknown type poisons the blob: a single-typed entry whose derived
/// short name does not resolve contributes nothing, and the blob
/// materializes exactly as if the entry were absent.
pub proof fn lemma_unresolved_entry_dropped(
    es: Seq<(Seq<char>, bool, Seq<char>)>,
    descs: Seq<TypeDescriptor>,
    i: int,
)
    requires
        0 <= i < es.len(),
        es[i].0 != reserved_key(),
        find_short(descs, derive_short_name(es[i].0)) is None,
    ensures
        entries_contrib(es, descs) == entries_contrib(es.remove(i), descs),
    decreases es.len(),
{
    if i == 0 {
        assert(entry_contrib(es[0].0, es[0].1, es[0].2, descs) == Some(Seq::<
            (Seq<char>, Seq<char>, bool),
        >::empty()));
        assert(es.remove(0) =~= es.skip(1));
        if entries_contrib(es.skip(1), descs) is Some {
            let rest = entries_contrib(es.skip(1), descs).unwrap();
            assert(Seq::<(Seq<char>, Seq<char>, bool)>::empty() + rest =~= rest);
        }
    } else {
        assert(forall|t: int|
            0 <= t < es.skip(1).len() ==> (#[trigger] es.skip(1)[t]) == es[t + 1]);
        lemma_unresolved_entry_dropped(es.skip(1), descs, i - 1);
        assert(es.remove(i).skip(1) =~= es.skip(1).remove(i - 1));
        assert(es.remove(i)[0] == es[0]);
    }
}

/// The nested-map counterpart: a nested pair whose fully-qualified path is
/// not registered contributes nothing, and the group materializes exactly as
/// if the pair were absent.  Only a malformed pair aborts the whole group.
pub proof fn lemma_unresolved_nested_item_dropped(
    nes: Seq<(Seq<char>, bool, Seq<char>)>,
    descs: Seq<TypeDescriptor>,
    i: int,
)
    requires
        0 <= i < nes.len(),
        find_path(descs, nes[i].0) is None,
    ensures
        nested_group_contrib(nes, descs) == nested_group_contrib(nes.remove(i), descs),
    decreases nes.len(),
{
    if i == 0 {
        assert(nested_item_contrib(nes[0].0, nes[0].2, descs) == Some(Seq::<
            (Seq<char>, Seq<char>, bool),
        >::empty()));
        assert(nes.remove(0) =~= nes.skip(1));
        if nested_group_contrib(nes.skip(1), descs) is Some {
            let rest = nested_group_contrib(nes.skip(1), descs).unwrap();
            assert(Seq::<(Seq<char>, Seq<char>, bool)>::empty() + rest =~= rest);
        }
    } else {
        assert(forall|t: int|
            0 <= t < nes.skip(1).len() ==> (#[trigger] nes.skip(1)[t]) == nes[t + 1]);
        lemma_unresolved_nested_item_dropped(nes.skip(1), descs, i - 1);
        assert(nes.remove(i).skip(1) =~= nes.skip(1).remove(i - 1));
        assert(nes.remove(i)[0] == nes[0]);
    }
}

/// Round trip between the two authoring forms of one value: a single-typed
/// entry whose value is the string `"(interior)"` materializes exactly as
/// the same entry whose value is the structured interior itself, provided
/// the interior does not begin or end with a parenthesis character.
pub proof fn lemma_paren_form_equivalent(
    name: Seq<char>,
    t: Seq<char>,
    descs: Seq<TypeDescriptor>,
)
    requires
        name != reserved_key(),
        t.len() == 0 || (!is_paren(t[0]) && !is_paren(t[t.len() - 1])),
    ensures
        entry_contrib(name, true, seq!['('] + t + seq![')'], descs) == entry_contrib(
            name,
            false,
            t,
            descs,
        ),
{
    lemma_unwrap_wrapped(t);
}

pub(crate) proof fn lemma_entry_views_concat(a: Seq<MaterializedEntry>, b: Seq<MaterializedEntry>)
    ensures
        entry_views(a + b) == entry_views(a) + entry_views(b),
{
    assert(entry_views(a + b) =~= entry_views(a) + entry_views(b));
}

pub(crate) proof fn lemma_entry_views_push(a: Seq<MaterializedEntry>, e: MaterializedEntry)
    ensures
        entry_views(a.push(e)) == entry_views(a) + seq![(e.type_path@, e.value_text@, e.insertable)],
{
    assert(entry_views(a.push(e)) =~= entry_views(a) + seq![
        (e.type_path@, e.value_text@, e.insertable),
    ]);
}

/// Materializes every entry of one node's metadata blob against the catalog.
///
/// A malformed blob is fatal with nothing produced; an entry whose type name
/// does not resolve is skipped; a resolved entry whose rewritten value text
/// is refused is fatal.  On success the records are exactly the blob's
/// entry-by-entry contributions, in decoding order.
#[verifier::loop_isolation(false)]
#[verifier::rlimit(60)]
pub fn materialize_entries(blob: &str, catalog: &TypeCatalog) -> (r: Result<
    Vec<MaterializedEntry>,
    MaterializeError,
>)
    ensures
        !blob_ok(blob@) ==> r == Err::<Vec<MaterializedEntry>, MaterializeError>(
            MaterializeError::MalformedBlob,
        ),
        blob_ok(blob@) && (entries_contrib(blob_entries(blob@), catalog.descriptors@) is None)
            ==> r == Err::<Vec<MaterializedEntry>, MaterializeError>(
            MaterializeError::MalformedEntry,
        ),
        (r is Ok) <==> (materialize_spec(blob@, catalog.descriptors@) is Some),
        r is Ok ==> entry_views(r.unwrap()@) == materialize_spec(
            blob@,
            catalog.descriptors@,
        ).unwrap(),
{
    let ghost descs = catalog.descriptors@;
    let decoded = match decode_blob(blob) {
        Ok(v) => v,
        Err(_) => {
            return Err(MaterializeError::MalformedBlob);
        },
    };
    let ghost es = blob_entries(blob@);
    let n = decoded.len();
    let mut out: Vec<MaterializedEntry> = Vec::new();
    let mut i: usize = 0;
    proof {
        assert(es.skip(0) =~= es);
    }
    while i < n
        invariant
            i <= n,
            entries_contrib(es, descs) == match entries_contrib(es.skip(i as int), descs) {
                None => None::<Seq<(Seq<char>, Seq<char>, bool)>>,
                Some(rest) => Some(entry_views(out@) + rest),
            },
        decreases n - i,
    {
        let pair = &decoded[i];
        let ghost ov = entry_views(out@);
        let mut delta: Vec<MaterializedEntry> = Vec::new();
        if str_eq(pair.0.as_str(), "bevy_components") {
            let nested = match decode_blob(pair.1.text()) {
                Ok(v) => v,
                Err(_) => {
                    proof {
                        assert(entry_contrib(es[i as int].0, es[i as int].1, es[i as int].2, descs)
                            is None);
                        assert(entries_contrib(es.skip(i as int), descs) is None);
                        assert(entries_contrib(es, descs) is None);
                    }
                    return Err(MaterializeError::MalformedEntry);
                },
            };
            let ghost nes = blob_entries(es[i as int].2);
            let m = nested.len();
            let mut j: usize = 0;
            proof {
                assert(nes.skip(0) =~= nes);
            }
            while j < m
                invariant
                    j <= m,
                    nested_group_contrib(nes, descs) == match nested_group_contrib(
                        nes.skip(j as int),
                        descs,
                    ) {
                        None => None::<Seq<(Seq<char>, Seq<char>, bool)>>,
                        Some(rest) => Some(entry_views(delta@) + rest),
                    },
                decreases m - j,
            {
                let npair = &nested[j];
                let ghost dv = entry_views(delta@);
                match catalog.lookup_by_full_path(npair.0.as_str()) {
                    None => {
                        proof {
                            assert(nested_item_contrib(nes[j as int].0, nes[j as int].2, descs)
                                == Some(Seq::<(Seq<char>, Seq<char>, bool)>::empty()));
                        }
                    },
                    Some(d) => {
                        let framed = nested_frame(d.type_path.as_str(), npair.1.text());
                        if !value_text_accepted(framed.as_str()) {
                            proof {
                                assert(nested_item_contrib(nes[j as int].0, nes[j as int].2, descs)
                                    is None);
                                assert(nested_group_contrib(nes.skip(j as int), descs) is None);
                                assert(nested_group_contrib(nes, descs) is None);
                                assert(entry_contrib(
                                    es[i as int].0,
                                    es[i as int].1,
                                    es[i as int].2,
                                    descs,
                                ) is None);
                                assert(entries_contrib(es.skip(i as int), descs) is None);
                                assert(entries_contrib(es, descs) is None);
                            }
                            return Err(MaterializeError::MalformedEntry);
                        }
                        let entry = MaterializedEntry {
                            type_path: d.type_path.clone(),
                            value_text: framed,
                            insertable: d.insertable,
                        };
                        proof {
                            lemma_entry_views_push(delta@, entry);
                        }
                        delta.push(entry);
                    },
                }
                proof {
                    assert(nes.skip(j as int).skip(1) =~= nes.skip(j + 1));
                    let first = nested_item_contrib(
                        nes[j as int].0,
                        nes[j as int].2,
                        descs,
                    ).unwrap();
                    assert(entry_views(delta@) =~= dv + first);
                    if nested_group_contrib(nes.skip(j + 1), descs) is Some {
                        let r2 = nested_group_contrib(nes.skip(j + 1), descs).unwrap();
                        assert(dv + (first + r2) =~= (dv + first) + r2);
                    }
                }
                j += 1;
            }
            proof {
                assert(nes.skip(m as int) =~= Seq::<(Seq<char>, bool, Seq<char>)>::empty());
                assert(entry_views(delta@) + Seq::<(Seq<char>, Seq<char>, bool)>::empty()
                    =~= entry_views(delta@));
                assert(entry_contrib(es[i as int].0, es[i as int].1, es[i as int].2, descs)
                    == Some(entry_views(delta@)));
            }
        } else {
            let short = short_type_name(pair.0.as_str());
            match catalog.lookup_by_short_name(short.as_str()) {
                None => {
                    proof {
                        assert(entry_contrib(es[i as int].0, es[i as int].1, es[i as int].2, descs)
                            == Some(Seq::<(Seq<char>, Seq<char>, bool)>::empty()));
                    }
                },
                Some(d) => {
                    let inner = if pair.1.written_as_text() {
                        unwrap_parens(pair.1.text())
                    } else {
                        String::from_str(pair.1.text())
                    };
                    let framed = single_frame(short.as_str(), inner.as_str());
                    if !value_text_accepted(framed.as_str()) {
                        proof {
                            assert(entry_contrib(
                                es[i as int].0,
                                es[i as int].1,
                                es[i as int].2,
                                descs,
                            ) is None);
                            assert(entries_contrib(es.skip(i as int), descs) is None);
                            assert(entries_contrib(es, descs) is None);
                        }
                        return Err(MaterializeError::MalformedEntry);
                    }
                    let entry = MaterializedEntry {
                        type_path: d.type_path.clone(),
                        value_text: framed,
                        insertable: d.insertable,
                    };
                    proof {
                        lemma_entry_views_push(delta@, entry);
                    }
                    delta.push(entry);
                },
            }
        }
        proof {
            assert(es.skip(i as int).skip(1) =~= es.skip(i + 1));
            let first = entry_contrib(es[i as int].0, es[i as int].1, es[i as int].2, descs)
                .unwrap();
            assert(entry_views(delta@) =~= first);
            lemma_entry_views_concat(out@, delta@);
            if entries_contrib(es.skip(i + 1), descs) is Some {
                let r2 = entries_contrib(es.skip(i + 1), descs).unwrap();
                assert(ov + (first + r2) =~= (ov + first) + r2);
            }
        }
        let mut moved = delta;
        out.append(&mut moved);
        i += 1;
    }
    proof {
        assert(es.skip(n as int) =~= Seq::<(Seq<char>, bool, Seq<char>)>::empty());
        assert(entry_views(out@) + Seq::<(Seq<char>, Seq<char>, bool)>::empty() =~= entry_views(
            out@,
        ));
    }
    Ok(out)
}

} // verus!
