//! The ordered document merger: an existing structured document's keys are
//! kept in their original order; keys newly introduced by a manifest group
//! are inserted directly after the pivot key when it is present, else
//! appended at the end, in manifest order; keys that already exist are
//! overwritten in place.

use vstd::pervasive::VecAdditionalExecFns;
use vstd::prelude::*;

use crate::config::{resolve, resolve_value, Replacement, ReplacementModel};
use crate::context::Context;
use crate::text::str_eq;
use crate::value::{coerce, coerce_model, TypedValue, ValueModel};

verus! {

/// The shape of a document's entries.
pub open spec fn entries_view(entries: Seq<(String, TypedValue)>) -> Seq<(Seq<char>, ValueModel)> {
    entries.map_values(|e: (String, TypedValue)| (e.0@, e.1@))
}

/// An ordered mapping from keys (unique within one document) to typed
/// values, parsed from a structured file and written back after merging.
pub struct StructuredDocument {
    pub entries: Vec<(String, TypedValue)>,
}

impl View for StructuredDocument {
    type V = Seq<(Seq<char>, ValueModel)>;

    open spec fn view(&self) -> Seq<(Seq<char>, ValueModel)> {
        entries_view(self.entries@)
    }
}

/// Keys are unique within one document.
pub open spec fn doc_wf(d: Seq<(Seq<char>, ValueModel)>) -> bool {
    forall|i: int, j: int| 0 <= i < j < d.len() ==> d[i].0 != d[j].0
}

impl StructuredDocument {
    /// Keys are unique within this document.
    pub open spec fn wf(&self) -> bool {
        doc_wf(self@)
    }
}

/// The index of the first entry whose key is `k`, if any.
pub open spec fn find_key(d: Seq<(Seq<char>, ValueModel)>, k: Seq<char>) -> Option<int>
    decreases d.len(),
{
    if d.len() == 0 {
        None
    } else if d[0].0 == k {
        Some(0)
    } else {
        match find_key(d.drop_first(), k) {
            Some(i) => Some(i + 1),
            None => None,
        }
    }
}

/// Whether some entry of `d` has key `k`.
pub open spec fn has_key(d: Seq<(Seq<char>, ValueModel)>, k: Seq<char>) -> bool {
    find_key(d, k) is Some
}

/// What `find_key` returns, characterised positionally.
pub proof fn lemma_find_key(d: Seq<(Seq<char>, ValueModel)>, k: Seq<char>)
    ensures
        match find_key(d, k) {
            Some(i) => 0 <= i < d.len() && d[i].0 == k && (forall|j: int|
                0 <= j < i ==> d[j].0 != k),
            None => forall|j: int| 0 <= j < d.len() ==> d[j].0 != k,
        },
    decreases d.len(),
{
    if d.len() == 0 {
    } else if d[0].0 == k {
        assert(find_key(d, k) == Some(0int));
    } else {
        lemma_find_key(d.drop_first(), k);
        assert(d.drop_first().len() == d.len() - 1);
        match find_key(d.drop_first(), k) {
            Some(i) => {
                assert(find_key(d, k) == Some(i + 1));
                assert(d[i + 1] == d.drop_first()[i]);
                assert forall|j: int| 0 <= j < i + 1 implies d[j].0 != k by {
                    if j > 0 {
                        assert(d[j] == d.drop_first()[j - 1]);
                    }
                }
            }
            None => {
                assert(find_key(d, k) is None);
                assert forall|j: int| 0 <= j < d.len() implies d[j].0 != k by {
                    if j > 0 {
                        assert(d[j] == d.drop_first()[j - 1]);
                    }
                }
            }
        }
    }
}

/// A position that matches `find_key`'s characterisation is what `find_key`
/// returns.
pub proof fn lemma_find_key_at(d: Seq<(Seq<char>, ValueModel)>, k: Seq<char>, i: int)
    requires
        0 <= i < d.len(),
        d[i].0 == k,
        forall|j: int| 0 <= j < i ==> d[j].0 != k,
    ensures
        find_key(d, k) == Some(i),
    decreases i,
{
    if i > 0 {
        lemma_find_key_at(d.drop_first(), k, i - 1);
    }
}

/// The index of the first entry of `entries` whose key is `key`, if any.
pub fn find_key_index(entries: &Vec<(String, TypedValue)>, key: &str) -> (r: Option<usize>)
    ensures
        match r {
            Some(i) => find_key(entries_view(entries@), key@) == Some(i as int),
            None => find_key(entries_view(entries@), key@) is None,
        },
{
    let ghost d = entries_view(entries@);
    let mut i: usize = 0;
    while i < entries.len()
        invariant
            d == entries_view(entries@),
            i <= entries@.len(),
            d.len() == entries@.len(),
            forall|j: int| 0 <= j < i ==> d[j].0 != key@,
        decreases entries@.len() - i,
    {
        proof {
            assert(d[i as int] == (entries@[i as int].0@, entries@[i as int].1@));
        }
        if str_eq(entries[i].0.as_str(), key) {
            proof {
                lemma_find_key_at(d, key@, i as int);
            }
            return Some(i);
        }
        i += 1;
    }
    proof {
        lemma_find_key(d, key@);
        if find_key(d, key@) is Some {
            let w = find_key(d, key@).unwrap();
            assert(d[w].0 != key@);
        }
    }
    None
}

/// The pivot key: the canonical `name` field of a structured document.
pub open spec fn pivot_key() -> Seq<char> {
    "name"@
}

/// Where newly introduced keys start to be inserted: directly after the
/// pivot key when present, else at the end of the document.
pub open spec fn start_cursor(d: Seq<(Seq<char>, ValueModel)>) -> int {
    match find_key(d, pivot_key()) {
        Some(i) => i + 1,
        None => d.len() as int,
    }
}

/// Inserts, for each rule in manifest order whose target key is absent from
/// the original document `orig` and whose value resolves, that key at the
/// running cursor. A key introduced twice keeps its first position and takes
/// the later value; an unresolved rule inserts nothing.
pub open spec fn insert_new_keys(
    entries: Seq<(Seq<char>, ValueModel)>,
    orig: Seq<(Seq<char>, ValueModel)>,
    rs: Seq<ReplacementModel>,
    vars: Seq<(Seq<char>, Seq<char>)>,
    cursor: int,
) -> Seq<(Seq<char>, ValueModel)>
    decreases rs.len(),
{
    if rs.len() == 0 {
        entries
    } else {
        let r = rs[0];
        let rest = rs.drop_first();
        if has_key(orig, r.key) {
            insert_new_keys(entries, orig, rest, vars, cursor)
        } else {
            match resolve(r, vars) {
                None => insert_new_keys(entries, orig, rest, vars, cursor),
                Some(raw) => {
                    let v = coerce_model(raw, r.type_tag);
                    match find_key(entries, r.key) {
                        Some(j) => insert_new_keys(
                            entries.update(j, (r.key, v)),
                            orig,
                            rest,
                            vars,
                            cursor,
                        ),
                        None => insert_new_keys(
                            entries.insert(cursor, (r.key, v)),
                            orig,
                            rest,
                            vars,
                            cursor + 1,
                        ),
                    }
                }
            }
        }
    }
}

/// Overwrites, for each rule in manifest order whose value resolves and
/// whose target key is present, that key's value in place; positions are
/// never changed and nothing is inserted or removed.
pub open spec fn overwrite_existing(
    entries: Seq<(Seq<char>, ValueModel)>,
    rs: Seq<ReplacementModel>,
    vars: Seq<(Seq<char>, Seq<char>)>,
) -> Seq<(Seq<char>, ValueModel)>
    decreases rs.len(),
{
    if rs.len() == 0 {
        entries
    } else {
        let r = rs[0];
        let next = match resolve(r, vars) {
            None => entries,
            Some(raw) => match find_key(entries, r.key) {
                Some(j) => entries.update(j, (r.key, coerce_model(raw, r.type_tag))),
                None => entries,
            },
        };
        overwrite_existing(next, rs.drop_first(), vars)
    }
}

/// The merged document: the original entries in their order, new keys
/// inserted after the pivot (or appended when there is no pivot), then
/// existing keys overwritten in place.
pub open spec fn merged(
    doc: Seq<(Seq<char>, ValueModel)>,
    rs: Seq<ReplacementModel>,
    vars: Seq<(Seq<char>, Seq<char>)>,
) -> Seq<(Seq<char>, ValueModel)> {
    overwrite_existing(insert_new_keys(doc, doc, rs, vars, start_cursor(doc)), rs, vars)
}

/// The keys of a document's entries, in order.
pub open spec fn keys_of(d: Seq<(Seq<char>, ValueModel)>) -> Seq<Seq<char>> {
    d.map_values(|e: (Seq<char>, ValueModel)| e.0)
}

/// Membership among a document's keys is exactly `has_key`.
pub proof fn lemma_has_key_contains(d: Seq<(Seq<char>, ValueModel)>, k: Seq<char>)
    ensures
        has_key(d, k) <==> keys_of(d).contains(k),
{
    lemma_find_key(d, k);
    match find_key(d, k) {
        Some(i) => {
            assert(keys_of(d)[i] == k);
        }
        None => {
            if keys_of(d).contains(k) {
                let i = choose|i: int| 0 <= i < keys_of(d).len() && keys_of(d)[i] == k;
                assert(d[i].0 == k);
            }
        }
    }
}

/// Overwriting never moves, adds or removes a key: the result has the same
/// length and the same key at every position.
pub proof fn lemma_overwrite_keeps_keys(
    entries: Seq<(Seq<char>, ValueModel)>,
    rs: Seq<ReplacementModel>,
    vars: Seq<(Seq<char>, Seq<char>)>,
)
    ensures
        overwrite_existing(entries, rs, vars).len() == entries.len(),
        forall|i: int| 0 <= i < entries.len() ==> overwrite_existing(entries, rs, vars)[i].0
            == entries[i].0,
    decreases rs.len(),
{
    if rs.len() > 0 {
        let r = rs[0];
        let next = match resolve(r, vars) {
            None => entries,
            Some(raw) => match find_key(entries, r.key) {
                Some(j) => entries.update(j, (r.key, coerce_model(raw, r.type_tag))),
                None => entries,
            },
        };
        lemma_find_key(entries, r.key);
        assert(next.len() == entries.len());
        assert(forall|i: int| 0 <= i < entries.len() ==> next[i].0 == entries[i].0);
        lemma_overwrite_keeps_keys(next, rs.drop_first(), vars);
    }
}

/// Overwrite is in place: when the target key is present at position `i` and
/// a value resolves, that position takes the coerced value and every other
/// entry is exactly as before.
pub proof fn lemma_overwrite_value_in_place(
    entries: Seq<(Seq<char>, ValueModel)>,
    r: ReplacementModel,
    vars: Seq<(Seq<char>, Seq<char>)>,
    raw: Seq<char>,
    i: int,
)
    requires
        resolve(r, vars) == Some(raw),
        find_key(entries, r.key) == Some(i),
    ensures
        overwrite_existing(entries, seq![r], vars) == entries.update(
            i,
            (r.key, coerce_model(raw, r.type_tag)),
        ),
{
    reveal_with_fuel(overwrite_existing, 2);
    let rs = seq![r];
    assert(rs[0] == r);
    assert(rs.drop_first().len() == 0);
}

/// A rule whose variable is missing and has no default changes nothing: the
/// target key is neither inserted, removed, nor overwritten.
pub proof fn lemma_unresolved_rule_is_noop(
    doc: Seq<(Seq<char>, ValueModel)>,
    r: ReplacementModel,
    vars: Seq<(Seq<char>, Seq<char>)>,
)
    requires
        resolve(r, vars) is None,
    ensures
        merged(doc, seq![r], vars) == doc,
{
    reveal_with_fuel(insert_new_keys, 2);
    reveal_with_fuel(overwrite_existing, 2);
    let rs = seq![r];
    assert(rs[0] == r);
    assert(rs.drop_first().len() == 0);
    assert(insert_new_keys(doc, doc, rs, vars, start_cursor(doc)) == doc);
}

/// A key introduced by the manifest lands directly after the pivot key: for
/// a document with keys `[a, name, b]` and one rule for a fresh key, the
/// merged key order is `[a, name, fresh, b]`.
pub proof fn lemma_insert_after_pivot(
    a: (Seq<char>, ValueModel),
    nv: ValueModel,
    b: (Seq<char>, ValueModel),
    r: ReplacementModel,
    vars: Seq<(Seq<char>, Seq<char>)>,
    raw: Seq<char>,
)
    requires
        a.0 != pivot_key(),
        b.0 != pivot_key(),
        r.key != a.0,
        r.key != pivot_key(),
        r.key != b.0,
        resolve(r, vars) == Some(raw),
    ensures
        ({
            let doc = seq![a, (pivot_key(), nv), b];
            let m = merged(doc, seq![r], vars);
            m =~= seq![
                a,
                (pivot_key(), nv),
                (r.key, coerce_model(raw, r.type_tag)),
                b,
            ]
        }),
{
    reveal_with_fuel(insert_new_keys, 2);
    reveal_with_fuel(overwrite_existing, 2);
    let doc = seq![a, (pivot_key(), nv), b];
    let rs = seq![r];
    assert(rs[0] == r);
    assert(rs.drop_first().len() == 0);
    lemma_find_key_at(doc, pivot_key(), 1);
    assert(start_cursor(doc) == 2);
    lemma_find_key(doc, r.key);
    if find_key(doc, r.key) is Some {
        let i = find_key(doc, r.key).unwrap();
        assert(doc[i].0 == r.key);
        assert(false);
    }
    let v = coerce_model(raw, r.type_tag);
    let inserted = doc.insert(2, (r.key, v));
    assert(insert_new_keys(doc, doc, rs, vars, 2) == insert_new_keys(
        inserted,
        doc,
        rs.drop_first(),
        vars,
        3,
    ));
    assert(inserted =~= seq![a, (pivot_key(), nv), (r.key, v), b]);
    lemma_overwrite_keeps_keys(inserted, rs, vars);
    let m = overwrite_existing(inserted, rs, vars);
    lemma_find_key(inserted, r.key);
    match find_key(inserted, r.key) {
        Some(j) => {
            assert(inserted[2].0 == r.key);
            assert(j == 2) by {
                if j != 2 {
                    assert(inserted[j].0 == r.key);
                }
            }
            assert(m == overwrite_existing(
                inserted.update(2, (r.key, v)),
                rs.drop_first(),
                vars,
            ));
            assert(inserted.update(2, (r.key, v)) =~= inserted);
        }
        None => {
            assert(inserted[2].0 == r.key);
        }
    }
}

/// The fresh target keys a rule list introduces, in manifest order: target
/// keys not in the original document whose value resolves, counted once.
pub open spec fn appended_keys(
    present: Seq<Seq<char>>,
    origkeys: Seq<Seq<char>>,
    rs: Seq<ReplacementModel>,
    vars: Seq<(Seq<char>, Seq<char>)>,
) -> Seq<Seq<char>>
    decreases rs.len(),
{
    if rs.len() == 0 {
        Seq::empty()
    } else {
        let r = rs[0];
        let rest = rs.drop_first();
        if origkeys.contains(r.key) || resolve(r, vars) is None || present.contains(r.key) {
            appended_keys(present, origkeys, rest, vars)
        } else {
            seq![r.key] + appended_keys(present.push(r.key), origkeys, rest, vars)
        }
    }
}

proof fn lemma_insert_at_end_appends(
    entries: Seq<(Seq<char>, ValueModel)>,
    orig: Seq<(Seq<char>, ValueModel)>,
    rs: Seq<ReplacementModel>,
    vars: Seq<(Seq<char>, Seq<char>)>,
)
    ensures
        keys_of(insert_new_keys(entries, orig, rs, vars, entries.len() as int)) == keys_of(entries)
            + appended_keys(keys_of(entries), keys_of(orig), rs, vars),
    decreases rs.len(),
{
    if rs.len() == 0 {
        assert(keys_of(entries) + appended_keys(keys_of(entries), keys_of(orig), rs, vars)
            =~= keys_of(entries));
    } else {
        let r = rs[0];
        let rest = rs.drop_first();
        lemma_has_key_contains(orig, r.key);
        if has_key(orig, r.key) || resolve(r, vars) is None {
            lemma_insert_at_end_appends(entries, orig, rest, vars);
        } else {
            let raw = resolve(r, vars).unwrap();
            let v = coerce_model(raw, r.type_tag);
            lemma_has_key_contains(entries, r.key);
            match find_key(entries, r.key) {
                Some(j) => {
                    lemma_find_key(entries, r.key);
                    let upd = entries.update(j, (r.key, v));
                    assert(keys_of(upd) =~= keys_of(entries));
                    lemma_insert_at_end_appends(upd, orig, rest, vars);
                }
                None => {
                    let grown = entries.insert(entries.len() as int, (r.key, v));
                    assert(grown =~= entries.push((r.key, v)));
                    assert(keys_of(grown) =~= keys_of(entries).push(r.key));
                    lemma_insert_at_end_appends(grown, orig, rest, vars);
                    assert(keys_of(entries) + (seq![r.key] + appended_keys(
                        keys_of(entries).push(r.key),
                        keys_of(orig),
                        rest,
                        vars,
                    )) =~= keys_of(grown) + appended_keys(keys_of(grown), keys_of(orig), rest, vars));
                }
            }
        }
    }
}

/// With no pivot key present, newly introduced keys are appended after all
/// original keys, in manifest order.
pub proof fn lemma_no_pivot_appends(
    doc: Seq<(Seq<char>, ValueModel)>,
    rs: Seq<ReplacementModel>,
    vars: Seq<(Seq<char>, Seq<char>)>,
)
    requires
        !has_key(doc, pivot_key()),
    ensures
        keys_of(merged(doc, rs, vars)) == keys_of(doc) + appended_keys(
            keys_of(doc),
            keys_of(doc),
            rs,
            vars,
        ),
{
    assert(start_cursor(doc) == doc.len() as int);
    lemma_insert_at_end_appends(doc, doc, rs, vars);
    let grown = insert_new_keys(doc, doc, rs, vars, doc.len() as int);
    lemma_overwrite_keeps_keys(grown, rs, vars);
    assert(keys_of(overwrite_existing(grown, rs, vars)) =~= keys_of(grown));
}

/// The keys of `keys` that the original document `orig` already has, in
/// their order in `keys`.
pub open spec fn original_keys_among(
    keys: Seq<Seq<char>>,
    orig: Seq<(Seq<char>, ValueModel)>,
) -> Seq<Seq<char>>
    decreases keys.len(),
{
    if keys.len() == 0 {
        Seq::empty()
    } else if has_key(orig, keys[0]) {
        seq![keys[0]] + original_keys_among(keys.drop_first(), orig)
    } else {
        original_keys_among(keys.drop_first(), orig)
    }
}

proof fn lemma_original_keys_among_add(
    a: Seq<Seq<char>>,
    b: Seq<Seq<char>>,
    orig: Seq<(Seq<char>, ValueModel)>,
)
    ensures
        original_keys_among(a + b, orig) == original_keys_among(a, orig) + original_keys_among(
            b,
            orig,
        ),
    decreases a.len(),
{
    if a.len() == 0 {
        assert(a + b =~= b);
        assert(original_keys_among(a, orig) + original_keys_among(b, orig) =~= original_keys_among(
            b,
            orig,
        ));
    } else {
        assert((a + b)[0] == a[0]);
        assert((a + b).drop_first() =~= a.drop_first() + b);
        lemma_original_keys_among_add(a.drop_first(), b, orig);
        if has_key(orig, a[0]) {
            assert(seq![a[0]] + (original_keys_among(a.drop_first(), orig) + original_keys_among(
                b,
                orig,
            )) =~= original_keys_among(a, orig) + original_keys_among(b, orig));
        }
    }
}

proof fn lemma_original_keys_among_identity(
    keys: Seq<Seq<char>>,
    orig: Seq<(Seq<char>, ValueModel)>,
)
    requires
        forall|i: int| 0 <= i < keys.len() ==> has_key(orig, #[trigger] keys[i]),
    ensures
        original_keys_among(keys, orig) == keys,
    decreases keys.len(),
{
    if keys.len() > 0 {
        assert(forall|i: int| 0 <= i < keys.len() - 1 ==> keys.drop_first()[i] == keys[i + 1]);
        lemma_original_keys_among_identity(keys.drop_first(), orig);
        assert(seq![keys[0]] + keys.drop_first() =~= keys);
    }
}

proof fn lemma_insert_keeps_original_keys(
    entries: Seq<(Seq<char>, ValueModel)>,
    orig: Seq<(Seq<char>, ValueModel)>,
    rs: Seq<ReplacementModel>,
    vars: Seq<(Seq<char>, Seq<char>)>,
    cursor: int,
)
    requires
        0 <= cursor <= entries.len(),
    ensures
        original_keys_among(keys_of(insert_new_keys(entries, orig, rs, vars, cursor)), orig)
            == original_keys_among(keys_of(entries), orig),
    decreases rs.len(),
{
    if rs.len() > 0 {
        let r = rs[0];
        let rest = rs.drop_first();
        if has_key(orig, r.key) {
            lemma_insert_keeps_original_keys(entries, orig, rest, vars, cursor);
        } else {
            match resolve(r, vars) {
                None => {
                    lemma_insert_keeps_original_keys(entries, orig, rest, vars, cursor);
                }
                Some(raw) => {
                    let v = coerce_model(raw, r.type_tag);
                    lemma_find_key(entries, r.key);
                    match find_key(entries, r.key) {
                        Some(j) => {
                            let upd = entries.update(j, (r.key, v));
                            assert(keys_of(upd) =~= keys_of(entries));
                            lemma_insert_keeps_original_keys(upd, orig, rest, vars, cursor);
                        }
                        None => {
                            let grown = entries.insert(cursor, (r.key, v));
                            entries.insert_ensures(cursor, (r.key, v));
                            let before = keys_of(entries).take(cursor);
                            let after = keys_of(entries).skip(cursor);
                            assert(keys_of(grown) =~= before + (seq![r.key] + after));
                            lemma_original_keys_among_add(before, seq![r.key] + after, orig);
                            lemma_original_keys_among_add(seq![r.key], after, orig);
                            assert(seq![r.key].drop_first() =~= Seq::<Seq<char>>::empty());
                            reveal_with_fuel(original_keys_among, 2);
                            assert(original_keys_among(seq![r.key], orig)
                                =~= Seq::<Seq<char>>::empty());
                            lemma_original_keys_among_add(before, after, orig);
                            assert(before + after =~= keys_of(entries));
                            assert(original_keys_among(keys_of(grown), orig)
                                == original_keys_among(keys_of(entries), orig));
                            lemma_insert_keeps_original_keys(grown, orig, rest, vars, cursor + 1);
                        }
                    }
                }
            }
        }
    }
}

/// The merger never reorders or drops a field the template author placed:
/// among the merged document's keys, those the original document already had
/// are exactly the original keys, in their original order.
pub proof fn lemma_merged_keeps_original_keys(
    doc: Seq<(Seq<char>, ValueModel)>,
    rs: Seq<ReplacementModel>,
    vars: Seq<(Seq<char>, Seq<char>)>,
)
    ensures
        original_keys_among(keys_of(merged(doc, rs, vars)), doc) == keys_of(doc),
{
    lemma_find_key(doc, pivot_key());
    lemma_insert_keeps_original_keys(doc, doc, rs, vars, start_cursor(doc));
    let grown = insert_new_keys(doc, doc, rs, vars, start_cursor(doc));
    lemma_overwrite_keeps_keys(grown, rs, vars);
    assert(keys_of(overwrite_existing(grown, rs, vars)) =~= keys_of(grown));
    assert forall|i: int| 0 <= i < keys_of(doc).len() implies has_key(
        doc,
        #[trigger] keys_of(doc)[i],
    ) by {
        lemma_has_key_contains(doc, keys_of(doc)[i]);
        assert(keys_of(doc).contains(keys_of(doc)[i]));
    }
    lemma_original_keys_among_identity(keys_of(doc), doc);
}

proof fn lemma_insert_new_keys_wf(
    entries: Seq<(Seq<char>, ValueModel)>,
    orig: Seq<(Seq<char>, ValueModel)>,
    rs: Seq<ReplacementModel>,
    vars: Seq<(Seq<char>, Seq<char>)>,
    cursor: int,
)
    requires
        doc_wf(entries),
        0 <= cursor <= entries.len(),
    ensures
        doc_wf(insert_new_keys(entries, orig, rs, vars, cursor)),
    decreases rs.len(),
{
    if rs.len() > 0 {
        let r = rs[0];
        let rest = rs.drop_first();
        if has_key(orig, r.key) {
            lemma_insert_new_keys_wf(entries, orig, rest, vars, cursor);
        } else {
            match resolve(r, vars) {
                None => {
                    lemma_insert_new_keys_wf(entries, orig, rest, vars, cursor);
                }
                Some(raw) => {
                    let v = coerce_model(raw, r.type_tag);
                    lemma_find_key(entries, r.key);
                    match find_key(entries, r.key) {
                        Some(j) => {
                            let upd = entries.update(j, (r.key, v));
                            assert forall|x: int, y: int|
                                0 <= x < y < upd.len() implies upd[x].0 != upd[y].0 by {
                                assert(upd[x].0 == entries[x].0);
                                assert(upd[y].0 == entries[y].0);
                            }
                            lemma_insert_new_keys_wf(upd, orig, rest, vars, cursor);
                        }
                        None => {
                            let grown = entries.insert(cursor, (r.key, v));
                            entries.insert_ensures(cursor, (r.key, v));
                            assert forall|x: int, y: int|
                                0 <= x < y < grown.len() implies grown[x].0 != grown[y].0 by {
                                if x < cursor {
                                    assert(grown[x] == entries[x]);
                                } else if x > cursor {
                                    assert(grown[x] == entries[x - 1]);
                                }
                                if y < cursor {
                                    assert(grown[y] == entries[y]);
                                } else if y > cursor {
                                    assert(grown[y] == entries[y - 1]);
                                }
                            }
                            lemma_insert_new_keys_wf(grown, orig, rest, vars, cursor + 1);
                        }
                    }
                }
            }
        }
    }
}

/// Merging preserves the document invariant: keys stay unique.
pub proof fn lemma_merged_wf(
    doc: Seq<(Seq<char>, ValueModel)>,
    rs: Seq<ReplacementModel>,
    vars: Seq<(Seq<char>, Seq<char>)>,
)
    requires
        doc_wf(doc),
    ensures
        doc_wf(merged(doc, rs, vars)),
{
    lemma_find_key(doc, pivot_key());
    lemma_insert_new_keys_wf(doc, doc, rs, vars, start_cursor(doc));
    let grown = insert_new_keys(doc, doc, rs, vars, start_cursor(doc));
    lemma_overwrite_keeps_keys(grown, rs, vars);
    let m = overwrite_existing(grown, rs, vars);
    assert forall|x: int, y: int| 0 <= x < y < m.len() implies m[x].0 != m[y].0 by {
        assert(m[x].0 == grown[x].0);
        assert(m[y].0 == grown[y].0);
    }
}

/// Seeds the result with every existing entry in original order, then
/// inserts each newly introduced key that resolves, after the pivot key if
/// the document has one, else at the end.
pub fn create_ordered_map(
    doc: &StructuredDocument,
    replacements: &Vec<Replacement>,
    ctx: &Context,
) -> (r: StructuredDocument)
    ensures
        r@ == insert_new_keys(
            doc@,
            doc@,
            replacements@.map_values(|x: Replacement| x@),
            ctx.vars_view(),
            start_cursor(doc@),
        ),
{
    let ghost rs = replacements@.map_values(|x: Replacement| x@);
    let ghost vars = ctx.vars_view();
    let mut entries: Vec<(String, TypedValue)> = Vec::new();
    let mut i: usize = 0;
    while i < doc.entries.len()
        invariant
            i <= doc.entries@.len(),
            entries_view(entries@) == doc@.take(i as int),
            entries@.len() == i,
        decreases doc.entries@.len() - i,
    {
        let ghost prev = entries@;
        entries.push((doc.entries[i].0.clone(), doc.entries[i].1.duplicate()));
        i += 1;
        proof {
            assert(entries_view(entries@) =~= doc@.take(i as int));
        }
    }
    proof {
        assert(doc@.take(doc.entries@.len() as int) =~= doc@);
    }
    let pivot = find_key_index(&doc.entries, "name");
    proof {
        lemma_find_key(doc@, pivot_key());
        assert(doc@.len() == doc.entries@.len());
    }
    let mut cursor: usize = match pivot {
        Some(i) => i + 1,
        None => entries.len(),
    };
    proof {
        assert(cursor as int == start_cursor(doc@));
    }
    let ghost cursor0 = cursor as int;
    let mut k: usize = 0;
    proof {
        assert(rs.skip(0) =~= rs);
    }
    while k < replacements.len()
        invariant
            rs == replacements@.map_values(|x: Replacement| x@),
            vars == ctx.vars_view(),
            k <= replacements@.len(),
            cursor <= entries@.len(),
            insert_new_keys(doc@, doc@, rs, vars, cursor0) == insert_new_keys(
                entries_view(entries@),
                doc@,
                rs.skip(k as int),
                vars,
                cursor as int,
            ),
        decreases replacements@.len() - k,
    {
        let ghost cur = entries_view(entries@);
        let ghost rrest = rs.skip(k as int);
        proof {
            assert(rrest[0] == rs[k as int]);
            assert(rs[k as int] == replacements@[k as int]@);
            assert(rrest.drop_first() =~= rs.skip(k as int + 1));
        }
        let rep = &replacements[k];
        if find_key_index(&doc.entries, rep.key.as_str()).is_none() {
            match resolve_value(rep, ctx) {
                Some(raw) => {
                    let v = coerce(raw.as_str(), rep.type_tag);
                    match find_key_index(&entries, rep.key.as_str()) {
                        Some(j) => {
                            proof {
                                lemma_find_key(cur, rep@.key);
                                assert(cur.len() == entries@.len());
                            }
                            entries.set(j, (rep.key.clone(), v));
                            proof {
                                assert(entries_view(entries@) =~= cur.update(
                                    j as int,
                                    (rep@.key, v@),
                                ));
                            }
                        }
                        None => {
                            entries.insert(cursor, (rep.key.clone(), v));
                            let n = entries.len();
                            proof {
                                assert(cursor < n);
                            }
                            cursor += 1;
                            proof {
                                assert(entries_view(entries@) =~= cur.insert(
                                    (cursor - 1) as int,
                                    (rep@.key, v@),
                                ));
                            }
                        }
                    }
                }
                None => {
                }
            }
        }
        k += 1;
    }
    proof {
        assert(rs.skip(replacements@.len() as int) =~= Seq::<ReplacementModel>::empty());
    }
    StructuredDocument { entries }
}

/// Overwrites, in manifest order, the value of each target key that is
/// already present and whose value resolves; key order is left unchanged.
pub fn update_existing_values(
    doc: &mut StructuredDocument,
    replacements: &Vec<Replacement>,
    ctx: &Context,
)
    ensures
        final(doc)@ == overwrite_existing(
            old(doc)@,
            replacements@.map_values(|x: Replacement| x@),
            ctx.vars_view(),
        ),
{
    let ghost rs = replacements@.map_values(|x: Replacement| x@);
    let ghost vars = ctx.vars_view();
    let mut k: usize = 0;
    proof {
        assert(rs.skip(0) =~= rs);
    }
    while k < replacements.len()
        invariant
            rs == replacements@.map_values(|x: Replacement| x@),
            vars == ctx.vars_view(),
            k <= replacements@.len(),
            overwrite_existing(old(doc)@, rs, vars) == overwrite_existing(
                doc@,
                rs.skip(k as int),
                vars,
            ),
        decreases replacements@.len() - k,
    {
        let ghost cur = doc@;
        let ghost rrest = rs.skip(k as int);
        proof {
            assert(rrest[0] == rs[k as int]);
            assert(rs[k as int] == replacements@[k as int]@);
            assert(rrest.drop_first() =~= rs.skip(k as int + 1));
        }
        let rep = &replacements[k];
        match resolve_value(rep, ctx) {
            Some(raw) => {
                match find_key_index(&doc.entries, rep.key.as_str()) {
                    Some(j) => {
                        let v = coerce(raw.as_str(), rep.type_tag);
                        proof {
                            lemma_find_key(cur, rep@.key);
                            assert(cur.len() == doc.entries@.len());
                        }
                        doc.entries.set(j, (rep.key.clone(), v));
                        proof {
                            assert(doc@ =~= cur.update(j as int, (rep@.key, v@)));
                        }
                    }
                    None => {
                    }
                }
            }
            None => {
            }
        }
        k += 1;
    }
    proof {
        assert(rs.skip(replacements@.len() as int) =~= Seq::<ReplacementModel>::empty());
    }
}

/// Merges a manifest group into an existing document: original key order is
/// kept, new keys follow the pivot (or the end), existing keys take the
/// resolved values in place.
pub fn merge_document(
    doc: &StructuredDocument,
    replacements: &Vec<Replacement>,
    ctx: &Context,
) -> (r: StructuredDocument)
    ensures
        r@ == merged(doc@, replacements@.map_values(|x: Replacement| x@), ctx.vars_view()),
{
    let mut m = create_ordered_map(doc, replacements, ctx);
    update_existing_values(&mut m, replacements, ctx);
    m
}

} // verus!
