//! The computable side of interactive selection. The fuzzy picker itself is
//! an external collaborator run by the front end; this module prepares the
//! items it is offered (optional TOTP filter, label, preview payload) and
//! maps its outcome back to the chosen entry by index.

use vstd::prelude::*;

use crate::vault::{
    entry_model, rec_full_path, spec_show_entry, show_entry, wrapped_model, wrapped_models, Entry,
    EntryModel, EntryPath, FlatRec, WrappedEntry,
};

verus! {

/// One line offered to the picker: the index of the record it stands for,
/// the label shown, and an optional preview payload.
pub struct PickerItem {
    pub idx: usize,
    pub title: String,
    pub preview: Option<String>,
}

/// Whether an entry carries a usable TOTP payload: one that is present and
/// non-empty. An empty payload has no usable secret, so it is never
/// offered when only TOTP-bearing entries may be picked.
pub open spec fn has_usable_totp(e: EntryModel) -> bool {
    match e.otp {
        Some(o) => o.len() > 0,
        None => false,
    }
}

/// The records that remain when only TOTP-bearing entries are offered:
/// exactly those with a non-empty TOTP payload, in order.
pub open spec fn totp_only(rs: Seq<FlatRec>) -> Seq<FlatRec>
    decreases rs.len(),
{
    if rs.len() == 0 {
        Seq::empty()
    } else {
        (if has_usable_totp(rs[0].entry) {
            seq![rs[0]]
        } else {
            Seq::empty()
        }) + totp_only(rs.drop_first())
    }
}

proof fn lemma_totp_only_push(rs: Seq<FlatRec>, x: FlatRec)
    ensures
        totp_only(rs.push(x)) == totp_only(rs) + (if has_usable_totp(x.entry) {
            seq![x]
        } else {
            Seq::<FlatRec>::empty()
        }),
    decreases rs.len(),
{
    if rs.len() == 0 {
        assert(rs.push(x).drop_first() =~= rs);
        assert(totp_only(rs) + (if has_usable_totp(x.entry) {
            seq![x]
        } else {
            Seq::<FlatRec>::empty()
        }) =~= totp_only(rs.push(x)));
    } else {
        assert(rs.push(x).drop_first() =~= rs.drop_first().push(x));
        lemma_totp_only_push(rs.drop_first(), x);
        assert(totp_only(rs.push(x)) =~= totp_only(rs) + (if has_usable_totp(x.entry) {
            seq![x]
        } else {
            Seq::<FlatRec>::empty()
        }));
    }
}

proof fn lemma_wrapped_models_push(s: Seq<WrappedEntry>, x: WrappedEntry)
    ensures
        wrapped_models(s.push(x)) == wrapped_models(s).push(wrapped_model(x)),
{
    assert(wrapped_models(s.push(x)) =~= wrapped_models(s).push(wrapped_model(x)));
}

/// Keeps the records to offer: all of them, or — when only TOTP-bearing
/// entries may be picked — exactly those carrying a non-empty TOTP
/// payload, in order.
pub fn filter_totp(entries: &Vec<WrappedEntry>, with_totp: bool) -> (r: Vec<WrappedEntry>)
    ensures
        with_totp ==> wrapped_models(r@) == totp_only(wrapped_models(entries@)),
        !with_totp ==> wrapped_models(r@) == wrapped_models(entries@),
{
    let ghost all = wrapped_models(entries@);
    let mut r: Vec<WrappedEntry> = Vec::new();
    let n = entries.len();
    for i in 0..n
        invariant
            n == entries@.len(),
            all == wrapped_models(entries@),
            with_totp ==> wrapped_models(r@) == totp_only(all.take(i as int)),
            !with_totp ==> wrapped_models(r@) == wrapped_models(entries@.take(i as int)),
    {
        let w = &entries[i];
        proof {
            assert(*w == entries@[i as int]);
            assert(all[i as int] == wrapped_model(entries@[i as int]));
        }
        let ghost pre = r@;
        let usable = match &w.entry.otp {
            Some(o) => !o.as_str().is_empty(),
            None => false,
        };
        proof {
            assert(usable == has_usable_totp(all[i as int].entry));
        }
        if !with_totp || usable {
            let c = w.clone();
            proof {
                assert(wrapped_model(c) == wrapped_model(entries@[i as int]));
            }
            r.push(c);
        }
        proof {
            assert(all.take(i + 1) =~= all.take(i as int).push(all[i as int]));
            assert(entries@.take(i + 1) =~= entries@.take(i as int).push(entries@[i as int]));
            lemma_totp_only_push(all.take(i as int), all[i as int]);
            lemma_wrapped_models_push(entries@.take(i as int), entries@[i as int]);
            if r@ != pre {
                lemma_wrapped_models_push(pre, r@.last());
                assert(r@ == pre.push(r@.last()));
            }
            if with_totp {
                assert(wrapped_models(r@) =~= totp_only(all.take(i + 1)));
            } else {
                assert(wrapped_models(r@) =~= wrapped_models(entries@.take(i + 1)));
            }
        }
    }
    proof {
        assert(all.take(n as int) =~= all);
        assert(entries@.take(n as int) =~= entries@);
    }
    r
}

/// Builds the picker's items: item `i` stands for record `i`, labelled by
/// the full display path, or by the bare title when group display is
/// suppressed, with the rendered field listing as preview when enabled.
pub fn picker_items(entries: &Vec<WrappedEntry>, hide_groups: bool, show_preview: bool) -> (r: Vec<
    PickerItem,
>)
    ensures
        r@.len() == entries@.len(),
        forall|i: int|
            0 <= i < r@.len() ==> {
                let m = wrapped_models(entries@)[i];
                &&& (#[trigger] r@[i]).idx == i
                &&& r@[i].title@ == (if hide_groups {
                    m.entry.title
                } else {
                    rec_full_path(m)
                })
                &&& (show_preview ==> r@[i].preview is Some && r@[i].preview.unwrap()@
                    == spec_show_entry(m.entry))
                &&& (!show_preview ==> r@[i].preview is None)
            },
{
    let mut r: Vec<PickerItem> = Vec::new();
    let n = entries.len();
    for i in 0..n
        invariant
            n == entries@.len(),
            r@.len() == i,
            forall|j: int|
                0 <= j < i ==> {
                    let m = wrapped_models(entries@)[j];
                    &&& (#[trigger] r@[j]).idx == j
                    &&& r@[j].title@ == (if hide_groups {
                        m.entry.title
                    } else {
                        rec_full_path(m)
                    })
                    &&& (show_preview ==> r@[j].preview is Some && r@[j].preview.unwrap()@
                        == spec_show_entry(m.entry))
                    &&& (!show_preview ==> r@[j].preview is None)
                },
    {
        let w = &entries[i];
        let title = if hide_groups {
            w.get_title()
        } else {
            w.entry_path()
        };
        let preview = if show_preview {
            Some(show_entry(&w.entry))
        } else {
            None
        };
        r.push(PickerItem { idx: i, title, preview });
    }
    r
}

/// Maps the picker's outcome back to an entry: the selection counts only
/// when the picker was not aborted and exactly one valid index came back.
pub fn resolve_selection(entries: &Vec<WrappedEntry>, aborted: bool, picks: &Vec<usize>) -> (r:
    Option<Entry>)
    ensures
        (aborted || picks@.len() != 1 || picks@[0] as int >= entries@.len()) <==> r is None,
        r is Some ==> entry_model(r.unwrap()) == wrapped_models(entries@)[picks@[0] as int].entry,
{
    if aborted || picks.len() != 1 {
        return None;
    }
    let idx = picks[0];
    if idx >= entries.len() {
        return None;
    }
    let w = &entries[idx];
    let found = w.entry.clone();
    proof {
        assert(wrapped_models(entries@)[idx as int] == wrapped_model(entries@[idx as int]));
    }
    Some(found)
}

} // verus!
