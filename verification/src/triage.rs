//! Category suggestions for uncategorized transactions, and the check every
//! changeset passes before it is applied to Monarch.
//!
//! Only `category`, `tags` and `notes` of a transaction may change. Entries that
//! name any other field fail to parse and are rejected under their transaction
//! id; [`partition_changeset`] keeps them rejected and never lets them through.

use vstd::hash_map::StringHashMap;
use vstd::prelude::*;

use crate::client::Transaction;
use crate::text::str_equals;

verus! {

/// A single proposed change for one transaction.
/// Only emitted when a category suggestion exists — unknown merchants are omitted.
#[derive(Debug, Clone, PartialEq)]
pub struct ProposedChange {
    pub id: String,
    pub merchant: String,
    /// Suggested category name derived from household history.
    pub category: String,
}

/// The result of triage — a list of proposed changes for review.
#[derive(Debug, PartialEq)]
pub struct TriageResult {
    pub proposed_changes: Vec<ProposedChange>,
}

/// A single change entry supplied by the caller in a change request.
///
/// Only `category`, `tags`, and `notes` are mutable; `id` identifies the
/// transaction to update.
#[derive(Debug, Clone)]
pub struct ChangeEntry {
    pub id: Option<String>,
    pub category: Option<String>,
    pub tags: Option<Vec<String>>,
    pub notes: Option<String>,
}

/// One change that is allowed through.
#[derive(Debug, PartialEq)]
pub struct AppliedChange {
    pub id: String,
    pub category: Option<String>,
    pub tags: Option<Vec<String>>,
    pub notes: Option<String>,
}

/// A change entry that was rejected, with the id it carried and why.
#[derive(Debug, PartialEq)]
pub struct RejectedChange {
    /// The `id` from the input entry (`unknown` if the entry lacked one).
    pub id: String,
    pub reason: String,
}

/// The result of applying a changeset.
#[derive(Debug, PartialEq)]
pub struct ApplyResult {
    pub applied_changes: Vec<AppliedChange>,
    pub rejected_changes: Vec<RejectedChange>,
    /// Total transaction count after applying — equals the count before.
    pub transaction_count: usize,
}

/// Outcome of parsing one raw change entry.
pub enum ParsedEntry {
    Valid(ChangeEntry),
    Rejected(RejectedChange),
}

// ---------------------------------------------------------------------------
// Suggestions
// ---------------------------------------------------------------------------

/// For each merchant, the category of its most recent transaction in `history`
/// whose category is not `Uncategorized`.
pub open spec fn spec_suggestion_map(history: Seq<Transaction>) -> Map<Seq<char>, String>
    decreases history.len(),
{
    if history.len() == 0 {
        Map::empty()
    } else {
        let prev = spec_suggestion_map(history.drop_last());
        let t = history.last();
        if t.category.name@ != "Uncategorized"@ {
            prev.insert(t.merchant_name@, t.category.name)
        } else {
            prev
        }
    }
}

/// `Uncategorized` is never suggested, and every merchant with a suggestion
/// has a categorized transaction in the history carrying that category.
pub proof fn law_suggestions_come_from_categorized_history(history: Seq<Transaction>, merchant: Seq<char>)
    requires
        spec_suggestion_map(history).contains_key(merchant),
    ensures
        spec_suggestion_map(history)[merchant]@ != "Uncategorized"@,
        exists|i: int|
            0 <= i < history.len() && #[trigger] history[i].merchant_name@ == merchant
                && history[i].category.name == spec_suggestion_map(history)[merchant],
    decreases history.len(),
{
    let prev = spec_suggestion_map(history.drop_last());
    let t = history.last();
    if t.category.name@ != "Uncategorized"@ && t.merchant_name@ == merchant {
        assert(history[history.len() - 1] == t);
    } else {
        assert(prev.contains_key(merchant));
        law_suggestions_come_from_categorized_history(history.drop_last(), merchant);
        let i = choose|i: int|
            0 <= i < history.drop_last().len() && #[trigger] history.drop_last()[i].merchant_name@
                == merchant && history.drop_last()[i].category.name == prev[merchant];
        assert(history[i] == history.drop_last()[i]);
    }
}

/// Build a category-suggestion map from transaction history.
///
/// For each merchant in `history` that has a non-"Uncategorized" category,
/// record the most recently seen category.
pub fn build_category_suggestion_map(history: &[Transaction]) -> (r: StringHashMap<String>)
    ensures
        r@ == spec_suggestion_map(history@),
{
    let mut map: StringHashMap<String> = StringHashMap::new();
    let mut i: usize = 0;
    while i < history.len()
        invariant
            0 <= i <= history.len(),
            map@ == spec_suggestion_map(history@.take(i as int)),
        decreases history.len() - i,
    {
        let txn = &history[i];
        let cat = &txn.category.name;
        proof {
            assert(history@.take(i + 1).drop_last() =~= history@.take(i as int));
            assert(history@.take(i + 1).last() == history@[i as int]);
        }
        if !str_equals(cat.as_str(), "Uncategorized") {
            map.insert(txn.merchant_name.clone(), cat.clone());
        }
        i = i + 1;
    }
    assert(history@.take(history.len() as int) =~= history@);
    map
}

/// The proposals for `uncategorized`, in order: each transaction whose merchant
/// has a suggestion, with that suggestion.
pub open spec fn spec_proposals(uncategorized: Seq<Transaction>, map: Map<Seq<char>, String>) -> Seq<
    ProposedChange,
>
    decreases uncategorized.len(),
{
    if uncategorized.len() == 0 {
        seq![]
    } else {
        let prev = spec_proposals(uncategorized.drop_last(), map);
        let t = uncategorized.last();
        if map.contains_key(t.merchant_name@) {
            prev.push(
                ProposedChange {
                    id: t.id,
                    merchant: t.merchant_name,
                    category: map[t.merchant_name@],
                },
            )
        } else {
            prev
        }
    }
}

/// Propose a category for each uncategorized transaction using household history.
///
/// Only transactions whose merchant appears in `suggestion_map` are included.
pub fn propose_changes(uncategorized: &[Transaction], suggestion_map: &StringHashMap<String>) -> (r:
    TriageResult)
    ensures
        r.proposed_changes@ == spec_proposals(uncategorized@, suggestion_map@),
{
    let mut proposed: Vec<ProposedChange> = Vec::new();
    let mut i: usize = 0;
    while i < uncategorized.len()
        invariant
            0 <= i <= uncategorized.len(),
            proposed@ == spec_proposals(uncategorized@.take(i as int), suggestion_map@),
        decreases uncategorized.len() - i,
    {
        let txn = &uncategorized[i];
        proof {
            assert(uncategorized@.take(i + 1).drop_last() =~= uncategorized@.take(i as int));
            assert(uncategorized@.take(i + 1).last() == uncategorized@[i as int]);
        }
        match suggestion_map.get(txn.merchant_name.as_str()) {
            Some(category) => {
                proposed.push(
                    ProposedChange {
                        id: txn.id.clone(),
                        merchant: txn.merchant_name.clone(),
                        category: category.clone(),
                    },
                );
            },
            None => {},
        }
        i = i + 1;
    }
    assert(uncategorized@.take(uncategorized.len() as int) =~= uncategorized@);
    TriageResult { proposed_changes: proposed }
}


/// One proposal per uncategorized transaction whose merchant has a
/// suggestion, in order, carrying that transaction's id and merchant and the
/// merchant's suggested category: a transaction is proposed whatever the
/// other transactions are.
pub proof fn law_each_suggested_transaction_is_proposed(
    uncategorized: Seq<Transaction>,
    map: Map<Seq<char>, String>,
)
    ensures
        spec_proposals(uncategorized, map) == uncategorized.filter(
            |t: Transaction| map.contains_key(t.merchant_name@),
        ).map_values(
            |t: Transaction|
                (ProposedChange { id: t.id, merchant: t.merchant_name, category: map[t.merchant_name@] }),
        ),
    decreases uncategorized.len(),
{
    reveal(Seq::filter);
    let pred = |t: Transaction| map.contains_key(t.merchant_name@);
    let f = |t: Transaction|
        (ProposedChange { id: t.id, merchant: t.merchant_name, category: map[t.merchant_name@] });
    if uncategorized.len() == 0 {
        assert(uncategorized.filter(pred).map_values(f) =~= Seq::<ProposedChange>::empty());
    } else {
        law_each_suggested_transaction_is_proposed(uncategorized.drop_last(), map);
        let rest = uncategorized.drop_last().filter(pred);
        let t = uncategorized.last();
        if pred(t) {
            assert(uncategorized.filter(pred) == rest.push(t));
            assert(rest.push(t).map_values(f) =~= rest.map_values(f).push(f(t)));
        } else {
            assert(uncategorized.filter(pred) == rest);
        }
    }
}

// ---------------------------------------------------------------------------
// Changeset gate
// ---------------------------------------------------------------------------

/// The reason a change entry without a transaction id is rejected.
pub open spec fn missing_id_reason() -> Seq<char> {
    "missing_transaction_id"@
}

/// Validate a change entry.
///
/// Fields outside `{id, category, tags, notes}` are rejected when the entry is
/// parsed. A parsed entry must still name the transaction it changes: one
/// without an id is rejected, so that no change is ever sent for a
/// transaction that does not exist.
pub fn validate_change_entry(entry: &ChangeEntry) -> (r: Result<(), String>)
    ensures
        r is Ok <==> entry.id is Some,
        r matches Err(m) ==> m@ == missing_id_reason(),
{
    match &entry.id {
        Some(_) => Ok(()),
        None => {
            proof {
                reveal_strlit("missing_transaction_id");
            }
            Err("missing_transaction_id".to_owned())
        },
    }
}

fn clone_opt_string(o: &Option<String>) -> (r: Option<String>)
    ensures
        r == *o,
{
    match o {
        Some(s) => Some(s.clone()),
        None => None,
    }
}

fn clone_strings(v: &Vec<String>) -> (r: Vec<String>)
    ensures
        r@ == v@,
{
    let mut out: Vec<String> = Vec::new();
    let mut i: usize = 0;
    while i < v.len()
        invariant
            0 <= i <= v.len(),
            out@ == v@.take(i as int),
        decreases v.len() - i,
    {
        out.push(v[i].clone());
        i = i + 1;
        assert(out@ =~= v@.take(i as int));
    }
    assert(v@.take(v.len() as int) =~= v@);
    out
}

fn clone_opt_strings(o: &Option<Vec<String>>) -> (r: Option<Vec<String>>)
    ensures
        match (r, *o) {
            (Some(a), Some(b)) => a@ == b@,
            (None, None) => true,
            _ => false,
        },
{
    match o {
        Some(v) => Some(clone_strings(v)),
        None => None,
    }
}

/// An optional id as listed: the id itself, or `unknown` when absent.
pub open spec fn id_or_unknown(id: Option<String>) -> Seq<char> {
    match id {
        Some(id) => id@,
        None => "unknown"@,
    }
}

/// The fields a change entry may name.
pub open spec fn allowed_key(k: Seq<char>) -> bool {
    k == "id"@ || k == "category"@ || k == "tags"@ || k == "notes"@
}

/// Some key of the raw entry is outside the allowed fields.
pub open spec fn names_forbidden_key(keys: Seq<String>) -> bool {
    exists|j: int| 0 <= j < keys.len() && !allowed_key(#[trigger] keys[j]@)
}

/// The reason an entry naming a field outside the allowed ones is rejected
/// when its parse did not already fail.
pub open spec fn forbidden_field_reason() -> Seq<char> {
    "forbidden_field"@
}

fn is_allowed_key(k: &str) -> (r: bool)
    ensures
        r == allowed_key(k@),
{
    str_equals(k, "id") || str_equals(k, "category") || str_equals(k, "tags") || str_equals(k, "notes")
}

fn has_forbidden_key(keys: &[String]) -> (r: bool)
    ensures
        r == names_forbidden_key(keys@),
{
    let mut j: usize = 0;
    while j < keys.len()
        invariant
            0 <= j <= keys.len(),
            forall|i: int| 0 <= i < j ==> allowed_key(#[trigger] keys@[i]@),
        decreases keys.len() - j,
    {
        if !is_allowed_key(keys[j].as_str()) {
            return true;
        }
        j = j + 1;
    }
    false
}

/// The outcome of parsing one raw change entry.
///
/// `id` is the string under the raw entry's `id` key, `keys` are all the keys
/// of the raw entry, and `parsed` is the strict parse of the whole entry or the
/// parser's message. A failed parse is rejected with that message, and an
/// entry naming any field outside `{id, category, tags, notes}` is rejected
/// whatever the parse said; either rejection is listed under the entry's id,
/// or `unknown` when it has none.
pub fn parsed_entry_from(id: Option<String>, keys: &[String], parsed: Result<ChangeEntry, String>) -> (r:
    ParsedEntry)
    ensures
        names_forbidden_key(keys@) ==> r is Rejected,
        match parsed {
            Ok(e) => if names_forbidden_key(keys@) {
                r matches ParsedEntry::Rejected(rej) && rej.id@ == id_or_unknown(id) && rej.reason@
                    == forbidden_field_reason()
            } else {
                r == ParsedEntry::Valid(e)
            },
            Err(m) => r matches ParsedEntry::Rejected(rej) && rej.id@ == id_or_unknown(id) && rej.reason
                == m,
        },
{
    let forbidden = has_forbidden_key(keys);
    let reason = match parsed {
        Ok(entry) => {
            if !forbidden {
                return ParsedEntry::Valid(entry);
            }
            proof {
                reveal_strlit("forbidden_field");
            }
            "forbidden_field".to_owned()
        },
        Err(m) => m,
    };
    let id = match id {
        Some(s) => s,
        None => {
            proof {
                reveal_strlit("unknown");
            }
            "unknown".to_owned()
        },
    };
    ParsedEntry::Rejected(RejectedChange { id, reason })
}

/// An applied change carries exactly the id and fields of its entry.
pub open spec fn applied_from(a: AppliedChange, e: ChangeEntry) -> bool {
    &&& e.id matches Some(id) && a.id@ == id@
    &&& a.category == e.category
    &&& a.notes == e.notes
    &&& match (a.tags, e.tags) {
        (Some(x), Some(y)) => x@ == y@,
        (None, None) => true,
        _ => false,
    }
}

/// A rejection listed with the id and reason it was given.
pub open spec fn same_rejection(a: RejectedChange, b: (Seq<char>, Seq<char>)) -> bool {
    a.id@ == b.0 && a.reason@ == b.1
}

/// The parsed entries of `entries` that name their transaction, in order.
pub open spec fn ok_entries(entries: Seq<ParsedEntry>) -> Seq<ChangeEntry>
    decreases entries.len(),
{
    if entries.len() == 0 {
        seq![]
    } else {
        let prev = ok_entries(entries.drop_last());
        match entries.last() {
            ParsedEntry::Valid(e) => if e.id is Some {
                prev.push(e)
            } else {
                prev
            },
            ParsedEntry::Rejected(_) => prev,
        }
    }
}

/// The rejections, in order, as `(id, reason)`: each entry rejected at parse
/// time with its own id and reason, and each parsed entry without an id under
/// `unknown` with [`missing_id_reason`].
pub open spec fn rejected_entries(entries: Seq<ParsedEntry>) -> Seq<(Seq<char>, Seq<char>)>
    decreases entries.len(),
{
    if entries.len() == 0 {
        seq![]
    } else {
        let prev = rejected_entries(entries.drop_last());
        match entries.last() {
            ParsedEntry::Valid(e) => if e.id is Some {
                prev
            } else {
                prev.push(("unknown"@, missing_id_reason()))
            },
            ParsedEntry::Rejected(r) => prev.push((r.id@, r.reason@)),
        }
    }
}

/// Apply an approved changeset, filtering out forbidden mutations.
///
/// Each parsed entry that names its transaction passes through as an applied
/// change under that id; a parsed entry without an id is rejected under
/// `unknown`, so `unknown` never reaches the applied changes. Each entry
/// rejected at parse time stays rejected, with its id and reason. The
/// transaction count is passed through unchanged.
pub fn partition_changeset(entries: &[ParsedEntry], total_transaction_count: usize) -> (r:
    ApplyResult)
    ensures
        r.transaction_count == total_transaction_count,
        r.applied_changes@.len() == ok_entries(entries@).len(),
        forall|k: int|
            0 <= k < r.applied_changes@.len() ==> applied_from(
                #[trigger] r.applied_changes@[k],
                ok_entries(entries@)[k],
            ),
        r.rejected_changes@.len() == rejected_entries(entries@).len(),
        forall|k: int|
            0 <= k < r.rejected_changes@.len() ==> same_rejection(
                #[trigger] r.rejected_changes@[k],
                rejected_entries(entries@)[k],
            ),
{
    let mut applied_changes: Vec<AppliedChange> = Vec::new();
    let mut rejected_changes: Vec<RejectedChange> = Vec::new();
    let mut i: usize = 0;
    while i < entries.len()
        invariant
            0 <= i <= entries.len(),
            applied_changes@.len() == ok_entries(entries@.take(i as int)).len(),
            forall|k: int|
                0 <= k < applied_changes@.len() ==> applied_from(
                    #[trigger] applied_changes@[k],
                    ok_entries(entries@.take(i as int))[k],
                ),
            rejected_changes@.len() == rejected_entries(entries@.take(i as int)).len(),
            forall|k: int|
                0 <= k < rejected_changes@.len() ==> same_rejection(
                    #[trigger] rejected_changes@[k],
                    rejected_entries(entries@.take(i as int))[k],
                ),
        decreases entries.len() - i,
    {
        proof {
            assert(entries@.take(i + 1).drop_last() =~= entries@.take(i as int));
            assert(entries@.take(i + 1).last() == entries@[i as int]);
        }
        match &entries[i] {
            ParsedEntry::Rejected(r) => {
                proof {
                    assert(rejected_entries(entries@.take(i + 1)) == rejected_entries(
                        entries@.take(i as int),
                    ).push((r.id@, r.reason@)));
                    assert(ok_entries(entries@.take(i + 1)) == ok_entries(entries@.take(i as int)));
                }
                rejected_changes.push(RejectedChange { id: r.id.clone(), reason: r.reason.clone() });
            },
            ParsedEntry::Valid(entry) => {
                match validate_change_entry(entry) {
                    Ok(()) => {
                        proof {
                            assert(rejected_entries(entries@.take(i + 1)) == rejected_entries(
                                entries@.take(i as int),
                            ));
                            assert(ok_entries(entries@.take(i + 1)) == ok_entries(
                                entries@.take(i as int),
                            ).push(*entry));
                        }
                        let id = match &entry.id {
                            Some(id) => id.clone(),
                            None => {
                                assert(false);
                                String::new()
                            },
                        };
                        applied_changes.push(
                            AppliedChange {
                                id,
                                category: clone_opt_string(&entry.category),
                                tags: clone_opt_strings(&entry.tags),
                                notes: clone_opt_string(&entry.notes),
                            },
                        );
                    },
                    Err(reason) => {
                        proof {
                            reveal_strlit("unknown");
                            assert(rejected_entries(entries@.take(i + 1)) == rejected_entries(
                                entries@.take(i as int),
                            ).push(("unknown"@, missing_id_reason())));
                            assert(ok_entries(entries@.take(i + 1)) == ok_entries(
                                entries@.take(i as int),
                            ));
                        }
                        rejected_changes.push(RejectedChange { id: "unknown".to_owned(), reason });
                    },
                }
            },
        }
        i = i + 1;
    }
    assert(entries@.take(entries.len() as int) =~= entries@);
    ApplyResult { applied_changes, rejected_changes, transaction_count: total_transaction_count }
}

/// Only entries that were parsed and name their transaction are applied: each
/// applied entry is a parsed (never a rejected) entry of the input, with an id.
pub proof fn law_only_identified_parsed_entries_are_applied(entries: Seq<ParsedEntry>, k: int)
    requires
        0 <= k < ok_entries(entries).len(),
    ensures
        ok_entries(entries)[k].id is Some,
        exists|j: int| 0 <= j < entries.len() && #[trigger] entries[j] == ParsedEntry::Valid(ok_entries(entries)[k]),
    decreases entries.len(),
{
    let prev = ok_entries(entries.drop_last());
    if k < prev.len() {
        law_only_identified_parsed_entries_are_applied(entries.drop_last(), k);
        let j = choose|j: int| 0 <= j < entries.drop_last().len() && #[trigger] entries.drop_last()[j]
            == ParsedEntry::Valid(prev[k]);
        assert(entries[j] == entries.drop_last()[j]);
        assert(ok_entries(entries)[k] == prev[k]);
    } else {
        assert(entries[entries.len() - 1] == entries.last());
    }
}

/// Every parsed entry that carries a transaction id is applied, whichever of
/// category, tags and notes it sets, in the order of the entries: the applied
/// entries are exactly the parsed entries with an id. Every other entry is
/// rejected, in order: one rejected at parse time with its own id and reason,
/// one parsed without an id under `unknown` with [`missing_id_reason`].
pub proof fn law_every_identified_parsed_entry_is_applied(entries: Seq<ParsedEntry>)
    ensures
        ok_entries(entries) == entries.filter(
            |p: ParsedEntry| p is Valid && p->Valid_0.id is Some,
        ).map_values(|p: ParsedEntry| p->Valid_0),
        rejected_entries(entries) == entries.filter(
            |p: ParsedEntry| !(p is Valid && p->Valid_0.id is Some),
        ).map_values(
            |p: ParsedEntry|
                match p {
                    ParsedEntry::Valid(_) => ("unknown"@, missing_id_reason()),
                    ParsedEntry::Rejected(r) => (r.id@, r.reason@),
                },
        ),
    decreases entries.len(),
{
    reveal(Seq::filter);
    let applied = |p: ParsedEntry| p is Valid && p->Valid_0.id is Some;
    let refused = |p: ParsedEntry| !(p is Valid && p->Valid_0.id is Some);
    let entry = |p: ParsedEntry| p->Valid_0;
    let reason = |p: ParsedEntry|
        match p {
            ParsedEntry::Valid(_) => ("unknown"@, missing_id_reason()),
            ParsedEntry::Rejected(r) => (r.id@, r.reason@),
        };
    if entries.len() == 0 {
        assert(entries.filter(applied).map_values(entry) =~= Seq::<ChangeEntry>::empty());
        assert(entries.filter(refused).map_values(reason) =~= Seq::<(Seq<char>, Seq<char>)>::empty());
    } else {
        law_every_identified_parsed_entry_is_applied(entries.drop_last());
        let rest = entries.drop_last().filter(applied);
        let other = entries.drop_last().filter(refused);
        let p = entries.last();
        if applied(p) {
            assert(entries.filter(applied) == rest.push(p));
            assert(entries.filter(refused) == other);
            assert(rest.push(p).map_values(entry) =~= rest.map_values(entry).push(entry(p)));
        } else {
            assert(entries.filter(applied) == rest);
            assert(entries.filter(refused) == other.push(p));
            assert(other.push(p).map_values(reason) =~= other.map_values(reason).push(reason(p)));
        }
    }
}

/// Every entry is accounted for: the applied and rejected changes together are
/// as many as the entries.
pub proof fn law_changeset_accounts_for_every_entry(entries: Seq<ParsedEntry>)
    ensures
        ok_entries(entries).len() + rejected_entries(entries).len() == entries.len(),
    decreases entries.len(),
{
    if entries.len() > 0 {
        law_changeset_accounts_for_every_entry(entries.drop_last());
    }
}

} // verus!
