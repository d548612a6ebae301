//! The engine's guarantees, stated on their own: what an empty batch does,
//! what reinjecting an image's own payload preserves, what one replacement
//! overwrites, and why one bad record cannot disturb the rest of a batch.

use vstd::prelude::*;
use crate::types::{DictEntry, DocEntry, PdfValue, StreamObject};
use crate::dict::{dict_get, dict_has_key};
use crate::document::doc_has_stream_at;
use crate::names::{filter_key, height_key, length_key, width_key};
use crate::scan::spec_is_jpeg_dict;
use crate::reinject::{
    spec_applicable, spec_entry_result, spec_image_dict_updated, spec_parsed_addr,
    spec_selected_record, spec_stream_updated, spec_success_count, spec_targets, ReplacementRecord,
};

verus! {

/// Reinjecting an empty replacement set changes nothing: every object of the
/// document — stream or not, image or not — is exactly what it was.
pub proof fn lemma_empty_batch_is_identity(pre: Seq<DocEntry>, post: Seq<DocEntry>)
    requires
        pre.len() == post.len(),
        forall|x: int|
            0 <= x < pre.len() ==> spec_entry_result(
                pre[x],
                #[trigger] post[x],
                Seq::<ReplacementRecord>::empty(),
            ),
    ensures
        post == pre,
{
    assert forall|x: int| 0 <= x < pre.len() implies #[trigger] post[x] == pre[x] by {
        assert(spec_selected_record(Seq::<ReplacementRecord>::empty(), pre[x].address) is None);
    }
    assert(post =~= pre);
}

/// Reinjecting the payload a JPEG image stream already carries leaves every
/// attribute outside Width, Height and Length — the whole preserved set, the
/// filter included — reading exactly as before, and the payload unchanged.
pub proof fn lemma_same_payload_reinjection_preserves(
    st1: StreamObject,
    st2: StreamObject,
    width: u32,
    height: u32,
)
    requires
        spec_is_jpeg_dict(st1.dict.entries@),
        spec_stream_updated(st1, st2, st1.content@, width, height),
    ensures
        st2.content@ == st1.content@,
        forall|k: Seq<u8>|
            k != width_key() && k != height_key() && k != length_key()
                ==> #[trigger] dict_get(st2.dict.entries@, k) == dict_get(st1.dict.entries@, k),
{
    let d1 = st1.dict.entries@;
    let d2 = st2.dict.entries@;
    assert(dict_has_key(d1, filter_key()));
    assert forall|k: Seq<u8>|
        k != width_key() && k != height_key() && k != length_key()
            implies #[trigger] dict_get(d2, k) == dict_get(d1, k) by {
        if k == filter_key() {
            assert(dict_get(d2, filter_key()) == dict_get(d1, filter_key()));
        }
    }
}

/// One replacement overwrites exactly the payload, Width, Height, Length and
/// — when it was absent — the filter: the new attributes carry the
/// replacement's values, every other attribute present before is present
/// afterwards with its original value, and attributes absent before are
/// absent afterwards.
pub proof fn lemma_selective_overwrite(
    pre: Seq<DictEntry>,
    post: Seq<DictEntry>,
    width: u32,
    height: u32,
    len: int,
)
    requires
        spec_image_dict_updated(pre, post, width, height, len),
    ensures
        dict_get(post, width_key()) == Some(PdfValue::Integer(width as i64)),
        dict_get(post, height_key()) == Some(PdfValue::Integer(height as i64)),
        dict_get(post, length_key()) == Some(PdfValue::Integer(len as i64)),
        dict_has_key(pre, filter_key()) ==> dict_get(post, filter_key()) == dict_get(
            pre,
            filter_key(),
        ),
        forall|k: Seq<u8>|
            k != width_key() && k != height_key() && k != length_key() && k != filter_key()
                ==> #[trigger] dict_get(post, k) == dict_get(pre, k),
        forall|k: Seq<u8>|
            k != width_key() && k != height_key() && k != length_key() && k != filter_key()
                ==> (#[trigger] dict_has_key(post, k) <==> dict_has_key(pre, k)),
{
    assert forall|k: Seq<u8>|
        k != width_key() && k != height_key() && k != length_key() && k != filter_key()
            implies (#[trigger] dict_has_key(post, k) <==> dict_has_key(pre, k)) by {
        assert(dict_get(post, k) == dict_get(pre, k));
        assert(dict_has_key(post, k) <==> dict_get(post, k) is Some);
        assert(dict_has_key(pre, k) <==> dict_get(pre, k) is Some);
    }
}

/// Dropping a record that names no address changes the selection for no
/// address.
proof fn lemma_selected_remove_no_target(
    recs: Seq<ReplacementRecord>,
    m: int,
    addr: crate::types::ObjectAddress,
)
    requires
        0 <= m < recs.len(),
        !spec_targets(recs[m], addr),
    ensures
        spec_selected_record(recs.remove(m), addr) == spec_selected_record(recs, addr),
    decreases recs.len(),
{
    if m == recs.len() - 1 {
        assert(recs.remove(m) =~= recs.drop_last());
    } else {
        let r2 = recs.remove(m);
        assert(r2.last() == recs.last());
        if spec_targets(recs.last(), addr) {
        } else {
            assert(r2.drop_last() =~= recs.drop_last().remove(m));
            lemma_selected_remove_no_target(recs.drop_last(), m, addr);
        }
    }
}

/// Dropping a record that is not applied changes the success count of no
/// batch.
proof fn lemma_count_remove_not_applicable(
    objs: Seq<DocEntry>,
    recs: Seq<ReplacementRecord>,
    m: int,
)
    requires
        0 <= m < recs.len(),
        !spec_applicable(objs, recs[m]),
    ensures
        spec_success_count(objs, recs.remove(m)) == spec_success_count(objs, recs),
    decreases recs.len(),
{
    if m == recs.len() - 1 {
        assert(recs.remove(m) =~= recs.drop_last());
    } else {
        let r2 = recs.remove(m);
        assert(r2.last() == recs.last());
        assert(r2.drop_last() =~= recs.drop_last().remove(m));
        lemma_count_remove_not_applicable(objs, recs.drop_last(), m);
    }
}

/// One record that cannot be applied — its address string malformed, or its
/// address resolving to no stream object — is isolated: dropping it from the
/// batch changes neither the success count nor what any object of the
/// document becomes under the batch.
pub proof fn lemma_per_item_isolation(
    objs: Seq<DocEntry>,
    recs: Seq<ReplacementRecord>,
    m: int,
)
    requires
        0 <= m < recs.len(),
        !spec_applicable(objs, recs[m]),
    ensures
        spec_success_count(objs, recs.remove(m)) == spec_success_count(objs, recs),
        forall|x: int, post: DocEntry|
            0 <= x < objs.len() ==> (#[trigger] spec_entry_result(objs[x], post, recs.remove(m))
                == spec_entry_result(objs[x], post, recs)),
{
    lemma_count_remove_not_applicable(objs, recs, m);
    assert forall|x: int, post: DocEntry|
        0 <= x < objs.len() implies (#[trigger] spec_entry_result(objs[x], post, recs.remove(m))
            == spec_entry_result(objs[x], post, recs)) by {
        match objs[x].object {
            PdfValue::Stream(_) => {
                match spec_parsed_addr(recs[m]) {
                    Some(a) => {
                        assert(!doc_has_stream_at(objs, a));
                        assert(objs[x].address != a);
                        assert(!spec_targets(recs[m], objs[x].address));
                    }
                    None => {
                        assert(!spec_targets(recs[m], objs[x].address));
                    }
                }
                lemma_selected_remove_no_target(recs, m, objs[x].address);
            }
            _ => {}
        }
    }
}

} // verus!
