//! Asset Discoverer: walks the aggregated payloads and extracts one
//! secondary download work item per qualifying document-like substructure.
//! Ragged records are expected — a record lacking the shape contributes
//! nothing and raises nothing.

use vstd::prelude::*;

use crate::aggregate::{AggregatedColl, Entry};

verus! {

/// Raw decoded records are carried through opaquely; the discovery logic
/// reads only the plain fields modelled beside them.
#[verifier::external_type_specification]
#[verifier::external_body]
pub struct ExValue(serde_json::Value);

/// One document-like substructure of a record, as plain optional fields:
/// either may be missing in ragged upstream data.
pub struct DocRef {
    pub url: Option<String>,
    pub file_name: Option<String>,
}

/// One heterogeneous record of a payload: the raw record is carried through
/// untouched for the output artifact, beside the plain fields that asset
/// discovery reads.
pub struct RecordItem {
    pub raw: serde_json::Value,
    pub application_num: Option<String>,
    pub documents: Option<Vec<DocRef>>,
}

/// One decoded remote payload: the declared record count and the records.
pub struct Payload {
    pub count: u32,
    pub items: Vec<RecordItem>,
}

/// One secondary download work item: the source address, the owning
/// entity's public identifier, and the declared file name. Identity for
/// idempotency is `(owner_key, file_name)`, not the URL.
pub struct AssetRef {
    pub url: String,
    pub owner_key: String,
    pub file_name: String,
}

impl View for AssetRef {
    type V = (Seq<char>, Seq<char>, Seq<char>);

    open spec fn view(&self) -> (Seq<char>, Seq<char>, Seq<char>) {
        (self.url@, self.owner_key@, self.file_name@)
    }
}

/// A document qualifies when it declares both a source address and a file
/// name.
pub open spec fn spec_doc_qualifies(d: DocRef) -> bool {
    d.url is Some && d.file_name is Some
}

pub open spec fn spec_doc_asset(owner: Seq<char>, d: DocRef) -> Seq<
    (Seq<char>, Seq<char>, Seq<char>),
> {
    match (d.url, d.file_name) {
        (Some(u), Some(f)) => seq![(u@, owner, f@)],
        _ => Seq::empty(),
    }
}

pub open spec fn spec_docs_assets(owner: Seq<char>, docs: Seq<DocRef>) -> Seq<
    (Seq<char>, Seq<char>, Seq<char>),
>
    decreases docs.len(),
{
    if docs.len() == 0 {
        Seq::empty()
    } else {
        spec_docs_assets(owner, docs.drop_last()) + spec_doc_asset(owner, docs.last())
    }
}

/// A record contributes one asset per qualifying document, and only when it
/// names its owning entity and carries a document list at all.
pub open spec fn spec_item_assets(item: RecordItem) -> Seq<(Seq<char>, Seq<char>, Seq<char>)> {
    match (item.application_num, item.documents) {
        (Some(owner), Some(docs)) => spec_docs_assets(owner@, docs@),
        _ => Seq::empty(),
    }
}

pub open spec fn spec_items_assets(items: Seq<RecordItem>) -> Seq<(Seq<char>, Seq<char>, Seq<char>)>
    decreases items.len(),
{
    if items.len() == 0 {
        Seq::empty()
    } else {
        spec_items_assets(items.drop_last()) + spec_item_assets(items.last())
    }
}

/// Everything the final aggregated collection references, in entry order.
pub open spec fn spec_entries_assets(entries: Seq<Entry<Payload>>) -> Seq<
    (Seq<char>, Seq<char>, Seq<char>),
>
    decreases entries.len(),
{
    if entries.len() == 0 {
        Seq::empty()
    } else {
        spec_entries_assets(entries.drop_last()) + spec_items_assets(entries.last().payload.items@)
    }
}

/// Walks the final collection and emits one AssetRef per qualifying
/// document substructure, in entry order.
pub fn discover_assets(coll: &AggregatedColl<Payload>) -> (r: Vec<AssetRef>)
    ensures
        r@.map_values(|a: AssetRef| a@) == spec_entries_assets(coll.entry_seq()),
{
    let entries = coll.entries();
    let mut out: Vec<AssetRef> = Vec::new();
    let n = entries.len();
    let mut i: usize = 0;
    while i < n
        invariant
            entries@ == coll.entry_seq(),
            n == entries@.len(),
            i <= n,
            out@.map_values(|a: AssetRef| a@) == spec_entries_assets(entries@.take(i as int)),
        decreases n - i,
    {
        proof {
            assert(entries@.take(i + 1).drop_last() =~= entries@.take(i as int));
            assert(entries@.take(i + 1).last() == entries@[i as int]);
        }
        let items = &entries[i].payload.items;
        let m = items.len();
        let mut j: usize = 0;
        while j < m
            invariant
                entries@ == coll.entry_seq(),
                n == entries@.len(),
                i < n,
                items@ == entries@[i as int].payload.items@,
                m == items@.len(),
                j <= m,
                out@.map_values(|a: AssetRef| a@) == spec_entries_assets(entries@.take(i as int))
                    + spec_items_assets(items@.take(j as int)),
            decreases m - j,
        {
            proof {
                assert(items@.take(j + 1).drop_last() =~= items@.take(j as int));
                assert(items@.take(j + 1).last() == items@[j as int]);
            }
            let item = &items[j];
            match (&item.application_num, &item.documents) {
                (Some(owner), Some(docs)) => {
                    let dn = docs.len();
                    let mut k: usize = 0;
                    while k < dn
                        invariant
                            entries@ == coll.entry_seq(),
                            n == entries@.len(),
                            i < n,
                            items@ == entries@[i as int].payload.items@,
                            m == items@.len(),
                            j < m,
                            item == &items@[j as int],
                            item.application_num matches Some(o) && o == owner,
                            item.documents matches Some(d) && d == docs,
                            dn == docs@.len(),
                            k <= dn,
                            out@.map_values(|a: AssetRef| a@) == spec_entries_assets(
                                entries@.take(i as int),
                            ) + spec_items_assets(items@.take(j as int)) + spec_docs_assets(
                                owner@,
                                docs@.take(k as int),
                            ),
                        decreases dn - k,
                    {
                        proof {
                            assert(docs@.take(k + 1).drop_last() =~= docs@.take(k as int));
                            assert(docs@.take(k + 1).last() == docs@[k as int]);
                        }
                        let ghost pre = out@;
                        let doc = &docs[k];
                        match (&doc.url, &doc.file_name) {
                            (Some(u), Some(f)) => {
                                out.push(
                                    AssetRef {
                                        url: u.clone(),
                                        owner_key: owner.clone(),
                                        file_name: f.clone(),
                                    },
                                );
                                proof {
                                    assert(out@.map_values(|a: AssetRef| a@) =~= pre.map_values(
                                        |a: AssetRef| a@,
                                    ) + spec_doc_asset(owner@, docs@[k as int]));
                                }
                            },
                            _ => {
                                proof {
                                    assert(spec_doc_asset(owner@, docs@[k as int]) =~= Seq::<
                                        (Seq<char>, Seq<char>, Seq<char>),
                                    >::empty());
                                }
                            },
                        }
                        proof {
                            assert(out@.map_values(|a: AssetRef| a@) =~= spec_entries_assets(
                                entries@.take(i as int),
                            ) + spec_items_assets(items@.take(j as int)) + spec_docs_assets(
                                owner@,
                                docs@.take(k + 1),
                            ));
                        }
                        k = k + 1;
                    }
                    proof {
                        assert(docs@.take(dn as int) =~= docs@);
                        assert(spec_item_assets(items@[j as int]) == spec_docs_assets(
                            owner@,
                            docs@,
                        ));
                        assert(out@.map_values(|a: AssetRef| a@) =~= spec_entries_assets(
                            entries@.take(i as int),
                        ) + spec_items_assets(items@.take(j + 1)));
                    }
                },
                _ => {
                    proof {
                        assert(spec_item_assets(items@[j as int]) =~= Seq::<
                            (Seq<char>, Seq<char>, Seq<char>),
                        >::empty());
                        assert(out@.map_values(|a: AssetRef| a@) =~= spec_entries_assets(
                            entries@.take(i as int),
                        ) + spec_items_assets(items@.take(j + 1)));
                    }
                },
            }
            j = j + 1;
        }
        proof {
            assert(items@.take(m as int) =~= items@);
            assert(out@.map_values(|a: AssetRef| a@) =~= spec_entries_assets(
                entries@.take(i + 1),
            ));
        }
        i = i + 1;
    }
    proof {
        assert(entries@.take(n as int) =~= entries@);
    }
    out
}

proof fn lemma_docs_no_match(owner: Seq<char>, docs: Seq<DocRef>)
    requires
        forall|k: int| 0 <= k < docs.len() ==> !spec_doc_qualifies(#[trigger] docs[k]),
    ensures
        spec_docs_assets(owner, docs).len() == 0,
    decreases docs.len(),
{
    if docs.len() > 0 {
        lemma_docs_no_match(owner, docs.drop_last());
        assert(!spec_doc_qualifies(docs[docs.len() - 1]));
    }
}

/// Whether a record carries at least one qualifying document substructure.
pub open spec fn spec_item_has_match(item: RecordItem) -> bool {
    match (item.application_num, item.documents) {
        (Some(_), Some(docs)) => exists|k: int|
            0 <= k < docs@.len() && spec_doc_qualifies(#[trigger] docs@[k]),
        _ => false,
    }
}

/// Law: a payload none of whose records carries a matching nested document
/// structure yields zero asset references — and nothing goes wrong.
pub proof fn lemma_no_match_no_assets(p: Payload)
    requires
        forall|i: int| 0 <= i < p.items@.len() ==> !spec_item_has_match(#[trigger] p.items@[i]),
    ensures
        spec_items_assets(p.items@).len() == 0,
{
    lemma_items_no_match(p.items@);
}

proof fn lemma_items_no_match(items: Seq<RecordItem>)
    requires
        forall|i: int| 0 <= i < items.len() ==> !spec_item_has_match(#[trigger] items[i]),
    ensures
        spec_items_assets(items).len() == 0,
    decreases items.len(),
{
    if items.len() > 0 {
        lemma_items_no_match(items.drop_last());
        let last = items[items.len() - 1];
        assert(!spec_item_has_match(last));
        match (last.application_num, last.documents) {
            (Some(owner), Some(docs)) => {
                assert(forall|k: int|
                    0 <= k < docs@.len() ==> !spec_doc_qualifies(#[trigger] docs@[k]));
                lemma_docs_no_match(owner@, docs@);
            },
            _ => {},
        }
    }
}

} // verus!
