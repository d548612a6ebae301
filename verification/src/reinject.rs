//! Reinjection of replacement payloads into the objects they came from. Each
//! replacement record carries an address string, new payload bytes and new
//! dimensions. Records are handled independently: a record whose address does
//! not parse, resolves to no object, or resolves to a non-stream object is
//! skipped, and the rest of the batch is still applied. An applied record
//! overwrites only the payload and the Width, Height and Length attributes,
//! restores the encoding filter (the captured one verbatim, or the JPEG
//! filter name when none was present), and leaves every other attribute —
//! present or absent — exactly as it stood.

use vstd::prelude::*;
use crate::types::{DictEntry, DocEntry, Document, ObjectAddress, PdfValue, StreamObject};
use crate::dict::{
    dict_get, dict_has_key, lemma_get_set_other, lemma_get_set_same, lemma_set_keeps_keys_unique,
    lemma_set_positional,
};
use crate::document::{doc_has_stream_at, doc_wf, obj_dict_wf};
use crate::address::{parse_object_address, spec_parse_address};
use crate::extract::clone_bytes;
use crate::names::{
    dct_decode_name, dct_decode_name_vec, filter_key, filter_key_vec, height_key, height_key_vec,
    length_key, length_key_vec, lemma_keys_distinct, width_key, width_key_vec,
};

verus! {

/// One replacement: the target's encoded address, the new payload, and the
/// new declared dimensions.
#[derive(PartialEq, Debug)]
pub struct ReplacementRecord {
    pub object_id: Vec<u8>,
    pub data: Vec<u8>,
    pub width: u32,
    pub height: u32,
}

/// The outcome of a batch: how many records were given and how many were
/// applied.
#[derive(Clone, Copy, PartialEq, Eq, Structural, Debug)]
pub struct ReinjectReport {
    pub attempted: usize,
    pub succeeded: usize,
}

/// The stream behind an object known to be a stream.
pub open spec fn spec_stream_of(o: PdfValue) -> StreamObject {
    match o {
        PdfValue::Stream(st) => st,
        _ => arbitrary(),
    }
}

/// The address a record names, when its address string is well formed.
pub open spec fn spec_parsed_addr(r: ReplacementRecord) -> Option<ObjectAddress> {
    spec_parse_address(r.object_id@)
}

/// The record names the given address.
pub open spec fn spec_targets(r: ReplacementRecord, addr: ObjectAddress) -> bool {
    spec_parsed_addr(r) == Some(addr)
}

/// The last record of the batch that names the given address, if any: with
/// several records aimed at one object, the last one applied wins.
pub open spec fn spec_selected_record(
    recs: Seq<ReplacementRecord>,
    addr: ObjectAddress,
) -> Option<ReplacementRecord>
    decreases recs.len(),
{
    if recs.len() == 0 {
        None
    } else if spec_targets(recs.last(), addr) {
        Some(recs.last())
    } else {
        spec_selected_record(recs.drop_last(), addr)
    }
}

/// The record is applied to the document: its address parses and resolves to
/// a stream object.
pub open spec fn spec_applicable(objs: Seq<DocEntry>, r: ReplacementRecord) -> bool {
    match spec_parsed_addr(r) {
        Some(addr) => doc_has_stream_at(objs, addr),
        None => false,
    }
}

/// How many records of the batch are applied to the document.
pub open spec fn spec_success_count(objs: Seq<DocEntry>, recs: Seq<ReplacementRecord>) -> int
    decreases recs.len(),
{
    if recs.len() == 0 {
        0
    } else {
        spec_success_count(objs, recs.drop_last()) + if spec_applicable(objs, recs.last()) {
            1int
        } else {
            0int
        }
    }
}

/// The dictionary `post` is `pre` after one payload replacement with the
/// given width, height and payload length: Width, Height and Length carry the
/// new values; the filter is the captured one, or the JPEG filter name when
/// none was captured; every other attribute reads exactly as before, absent
/// attributes stay absent; no entry that was present moved or changed, and
/// anything appended is one of the four touched attributes.
pub open spec fn spec_image_dict_updated(
    pre: Seq<DictEntry>,
    post: Seq<DictEntry>,
    width: u32,
    height: u32,
    len: int,
) -> bool {
    &&& dict_get(post, width_key()) == Some(PdfValue::Integer(width as i64))
    &&& dict_get(post, height_key()) == Some(PdfValue::Integer(height as i64))
    &&& dict_get(post, length_key()) == Some(PdfValue::Integer(len as i64))
    &&& (dict_has_key(pre, filter_key()) ==> dict_get(post, filter_key()) == dict_get(
        pre,
        filter_key(),
    ))
    &&& (!dict_has_key(pre, filter_key()) ==> match dict_get(post, filter_key()) {
        Some(PdfValue::Name(n)) => n@ == dct_decode_name(),
        _ => false,
    })
    &&& forall|k: Seq<u8>|
        k != width_key() && k != height_key() && k != length_key() && k != filter_key()
            ==> #[trigger] dict_get(post, k) == dict_get(pre, k)
    &&& pre.len() <= post.len()
    &&& forall|j: int| 0 <= j < pre.len() ==> (#[trigger] post[j]).key == pre[j].key
    &&& forall|j: int|
        0 <= j < pre.len() && pre[j].key@ != width_key() && pre[j].key@ != height_key()
            && pre[j].key@ != length_key() && pre[j].key@ != filter_key()
            ==> #[trigger] post[j] == pre[j]
    &&& forall|j: int|
        pre.len() <= j < post.len() ==> ((#[trigger] post[j]).key@ == width_key()
            || post[j].key@ == height_key() || post[j].key@ == length_key()
            || post[j].key@ == filter_key())
}

/// The stream `st2` is `st1` after one payload replacement.
pub open spec fn spec_stream_updated(
    st1: StreamObject,
    st2: StreamObject,
    data: Seq<u8>,
    width: u32,
    height: u32,
) -> bool {
    &&& st2.content@ == data
    &&& spec_image_dict_updated(st1.dict.entries@, st2.dict.entries@, width, height, data.len() as int)
}

/// What one object of the document becomes under a batch: a stream named by
/// some record is updated per the last such record; everything else — any
/// object no record names, any non-stream object — is exactly what it was.
pub open spec fn spec_entry_result(
    pre: DocEntry,
    post: DocEntry,
    recs: Seq<ReplacementRecord>,
) -> bool {
    match pre.object {
        PdfValue::Stream(st1) => match spec_selected_record(recs, pre.address) {
            Some(rec) => {
                &&& post.address == pre.address
                &&& post.object is Stream
                &&& spec_stream_updated(st1, spec_stream_of(post.object), rec.data@, rec.width, rec.height)
            },
            None => post == pre,
        },
        _ => post == pre,
    }
}

/// Overwrites the payload and geometry of one stream: the content becomes the
/// replacement bytes, Width and Height the replacement dimensions, Length the
/// replacement's byte length; the filter is kept verbatim when present and
/// defaulted to the JPEG filter name otherwise; nothing else changes.
pub fn update_stream(st: &mut StreamObject, data: Vec<u8>, width: u32, height: u32)
    requires
        old(st).dict.wf(),
        data@.len() <= i64::MAX,
    ensures
        final(st).dict.wf(),
        spec_stream_updated(*old(st), *final(st), data@, width, height),
{
    proof {
        lemma_keys_distinct();
    }
    let n = data.len();
    st.content = data;
    let fkey = filter_key_vec();
    let had_filter = st.dict.contains_key(fkey.as_slice());
    let ghost d0 = st.dict.entries@;

    let wkey = width_key_vec();
    let ghost gw = wkey;
    let wval = PdfValue::Integer(width as i64);
    proof {
        lemma_get_set_same(d0, gw, wval);
        lemma_set_positional(d0, gw, wval);
        lemma_set_keeps_keys_unique(d0, gw, wval);
    }
    st.dict.set_value(wkey, wval);
    let ghost d1 = st.dict.entries@;

    let hkey = height_key_vec();
    let ghost gh = hkey;
    let hval = PdfValue::Integer(height as i64);
    proof {
        lemma_get_set_same(d1, gh, hval);
        lemma_set_positional(d1, gh, hval);
        lemma_set_keeps_keys_unique(d1, gh, hval);
        lemma_get_set_other(d1, gh, hval, width_key());
    }
    st.dict.set_value(hkey, hval);
    let ghost d2 = st.dict.entries@;

    let lkey = length_key_vec();
    let ghost gl = lkey;
    let lval = PdfValue::Integer(n as i64);
    proof {
        lemma_get_set_same(d2, gl, lval);
        lemma_set_positional(d2, gl, lval);
        lemma_set_keeps_keys_unique(d2, gl, lval);
        lemma_get_set_other(d2, gl, lval, width_key());
        lemma_get_set_other(d2, gl, lval, height_key());
    }
    st.dict.set_value(lkey, lval);
    let ghost d3 = st.dict.entries@;

    if !had_filter {
        let fkey2 = filter_key_vec();
        let ghost gf = fkey2;
        let fval = PdfValue::Name(dct_decode_name_vec());
        let ghost gfval = fval;
        proof {
            lemma_get_set_same(d3, gf, fval);
            lemma_set_positional(d3, gf, fval);
            lemma_set_keeps_keys_unique(d3, gf, fval);
            lemma_get_set_other(d3, gf, fval, width_key());
            lemma_get_set_other(d3, gf, fval, height_key());
            lemma_get_set_other(d3, gf, fval, length_key());
        }
        st.dict.set_value(fkey2, fval);
        let ghost d4 = st.dict.entries@;
        proof {
            assert forall|k: Seq<u8>|
                k != width_key() && k != height_key() && k != length_key() && k != filter_key()
                    implies #[trigger] dict_get(d4, k) == dict_get(d0, k) by {
                lemma_get_set_other(d0, gw, wval, k);
                lemma_get_set_other(d1, gh, hval, k);
                lemma_get_set_other(d2, gl, lval, k);
                lemma_get_set_other(d3, gf, gfval, k);
            }
            assert(spec_image_dict_updated(d0, d4, width, height, n as int));
        }
    } else {
        proof {
            lemma_get_set_other(d2, gl, lval, filter_key());
            lemma_get_set_other(d1, gh, hval, filter_key());
            lemma_get_set_other(d0, gw, wval, filter_key());
            assert forall|k: Seq<u8>|
                k != width_key() && k != height_key() && k != length_key() && k != filter_key()
                    implies #[trigger] dict_get(d3, k) == dict_get(d0, k) by {
                lemma_get_set_other(d0, gw, wval, k);
                lemma_get_set_other(d1, gh, hval, k);
                lemma_get_set_other(d2, gl, lval, k);
            }
            assert(dict_has_key(d0, filter_key()));
            assert(spec_image_dict_updated(d0, d3, width, height, n as int));
        }
    }
}

/// Resolves one address and, when it names a stream object, applies the
/// replacement to that object alone. Returns whether a stream was updated;
/// when none was — the address names no object, or a non-stream object — the
/// document is exactly what it was.
pub fn apply_replacement(
    doc: &mut Document,
    addr: ObjectAddress,
    data: Vec<u8>,
    width: u32,
    height: u32,
) -> (updated: bool)
    requires
        old(doc).wf(),
        data@.len() <= i64::MAX,
    ensures
        final(doc).wf(),
        final(doc).objects@.len() == old(doc).objects@.len(),
        updated == doc_has_stream_at(old(doc).objects@, addr),
        forall|j: int|
            0 <= j < old(doc).objects@.len() ==> (#[trigger] final(doc).objects@[j]).address
                == old(doc).objects@[j].address,
        forall|j: int|
            0 <= j < old(doc).objects@.len() && old(doc).objects@[j].address != addr
                ==> #[trigger] final(doc).objects@[j] == old(doc).objects@[j],
        forall|j: int|
            0 <= j < old(doc).objects@.len() && !(old(doc).objects@[j].object is Stream)
                ==> #[trigger] final(doc).objects@[j] == old(doc).objects@[j],
        forall|j: int|
            0 <= j < old(doc).objects@.len() && old(doc).objects@[j].address == addr
                && old(doc).objects@[j].object is Stream
                ==> ((#[trigger] final(doc).objects@[j]).object is Stream && spec_stream_updated(
                spec_stream_of(old(doc).objects@[j].object),
                spec_stream_of(final(doc).objects@[j].object),
                data@,
                width,
                height,
            )),
{
    let found = doc.find_index(addr);
    match found {
        None => {
            proof {
                assert(!doc_has_stream_at(doc.objects@, addr));
            }
            false
        }
        Some(i) => {
            let ghost pre = doc.objects@;
            let entry = doc.objects.remove(i);
            match entry.object {
                PdfValue::Stream(mut st) => {
                    proof {
                        assert(obj_dict_wf(pre[i as int].object));
                    }
                    update_stream(&mut st, data, width, height);
                    doc.objects.insert(
                        i,
                        DocEntry { address: entry.address, object: PdfValue::Stream(st) },
                    );
                    proof {
                        assert(forall|j: int|
                            0 <= j < pre.len() && j != i ==> doc.objects@[j] == pre[j]);
                        assert(doc.objects@.len() == pre.len());
                        assert(doc_has_stream_at(pre, addr));
                        assert(forall|j: int|
                            0 <= j < pre.len() && j != i ==> pre[j].address != addr);
                        assert(doc_wf(doc.objects@));
                    }
                    true
                }
                other => {
                    doc.objects.insert(i, DocEntry { address: entry.address, object: other });
                    proof {
                        assert(doc.objects@ =~= pre);
                        assert(forall|j: int|
                            0 <= j < pre.len() && j != i ==> pre[j].address != addr);
                        assert(!doc_has_stream_at(pre, addr));
                    }
                    false
                }
            }
        }
    }
}

/// Applies a batch of replacement records, each independently: a record whose
/// address string is malformed, resolves to no object, or resolves to a
/// non-stream object is skipped and counted as attempted but not succeeded.
/// The document is mutated in place, best effort: every applicable record is
/// applied whatever happened to the others.
pub fn reinject_images(doc: &mut Document, records: &Vec<ReplacementRecord>) -> (r: ReinjectReport)
    requires
        old(doc).wf(),
        forall|t: int|
            0 <= t < records@.len() ==> (#[trigger] records@[t]).data@.len() <= i64::MAX,
    ensures
        final(doc).wf(),
        final(doc).objects@.len() == old(doc).objects@.len(),
        forall|x: int|
            0 <= x < old(doc).objects@.len() ==> (#[trigger] final(doc).objects@[x]).address
                == old(doc).objects@[x].address,
        forall|x: int|
            0 <= x < old(doc).objects@.len() ==> spec_entry_result(
                old(doc).objects@[x],
                #[trigger] final(doc).objects@[x],
                records@,
            ),
        r.attempted == records@.len(),
        r.succeeded == spec_success_count(old(doc).objects@, records@),
{
    let m = records.len();
    let n = doc.objects.len();
    let mut succeeded: usize = 0;
    let mut t: usize = 0;
    while t < m
        invariant
            doc.wf(),
            m == records@.len(),
            n == old(doc).objects@.len(),
            n == doc.objects@.len(),
            0 <= t <= m,
            succeeded <= t,
            forall|tt: int|
                0 <= tt < records@.len() ==> (#[trigger] records@[tt]).data@.len() <= i64::MAX,
            forall|x: int|
                0 <= x < n ==> (#[trigger] doc.objects@[x]).address
                    == old(doc).objects@[x].address,
            forall|x: int|
                0 <= x < n ==> ((#[trigger] doc.objects@[x]).object is Stream
                    <==> old(doc).objects@[x].object is Stream),
            forall|x: int|
                0 <= x < n ==> spec_entry_result(
                    old(doc).objects@[x],
                    #[trigger] doc.objects@[x],
                    records@.take(t as int),
                ),
            succeeded == spec_success_count(old(doc).objects@, records@.take(t as int)),
        decreases m - t,
    {
        let ghost base = old(doc).objects@;
        let ghost recs_now = records@.take(t as int);
        let ghost recs_next = records@.take(t as int + 1);
        proof {
            assert(recs_next =~= recs_now.push(records@[t as int]));
        }
        let rec = &records[t];
        let parsed = parse_object_address(rec.object_id.as_slice());
        match parsed {
            None => {
                proof {
                    lemma_selected_push_no_target(recs_now, records@[t as int]);
                    lemma_count_push(base, recs_now, records@[t as int]);
                    assert forall|x: int| 0 <= x < n implies spec_entry_result(
                        base[x],
                        #[trigger] doc.objects@[x],
                        recs_next,
                    ) by {
                        assert(spec_entry_result(base[x], doc.objects@[x], recs_now));
                        assert(spec_selected_record(recs_next, base[x].address)
                            == spec_selected_record(recs_now, base[x].address));
                    }
                }
            }
            Some(addr) => {
                let ghost c1 = doc.objects@;
                let data = clone_bytes(&rec.data);
                let updated = apply_replacement(doc, addr, data, rec.width, rec.height);
                if updated {
                    succeeded = succeeded + 1;
                }
                proof {
                    let rec_t = records@[t as int];
                    lemma_count_push(base, recs_now, rec_t);
                    // The batch counts a record against the document as it
                    // stood at entry; addresses and stream-ness are unchanged,
                    // so resolution agrees with the current state.
                    assert(doc_has_stream_at(base, addr) <==> doc_has_stream_at(c1, addr)) by {
                        if doc_has_stream_at(base, addr) {
                            let w = choose|w: int|
                                0 <= w < base.len() && base[w].address == addr
                                    && base[w].object is Stream;
                            assert(c1[w].address == addr && c1[w].object is Stream);
                        }
                        if doc_has_stream_at(c1, addr) {
                            let w = choose|w: int|
                                0 <= w < c1.len() && c1[w].address == addr
                                    && c1[w].object is Stream;
                            assert(base[w].address == addr && base[w].object is Stream);
                        }
                    }
                    assert(spec_applicable(base, rec_t) == doc_has_stream_at(base, addr));
                    assert forall|x: int| 0 <= x < n implies spec_entry_result(
                        base[x],
                        #[trigger] doc.objects@[x],
                        recs_next,
                    ) by {
                        assert(spec_entry_result(base[x], c1[x], recs_now));
                        lemma_selected_push(recs_now, rec_t, base[x].address);
                        if base[x].object is Stream {
                            if base[x].address == addr {
                                assert(c1[x].object is Stream);
                                assert(doc.objects@[x].object is Stream);
                                let st0 = spec_stream_of(base[x].object);
                                let st_mid = spec_stream_of(c1[x].object);
                                let st2 = spec_stream_of(doc.objects@[x].object);
                                assert(spec_stream_updated(st_mid, st2, rec_t.data@, rec_t.width, rec_t.height));
                                match spec_selected_record(recs_now, base[x].address) {
                                    Some(prev) => {
                                        assert(spec_stream_updated(st0, st_mid, prev.data@, prev.width, prev.height));
                                        lemma_stream_update_compose(
                                            st0, st_mid, st2,
                                            prev.data@, prev.width, prev.height,
                                            rec_t.data@, rec_t.width, rec_t.height,
                                        );
                                    }
                                    None => {
                                        assert(c1[x] == base[x]);
                                    }
                                }
                                assert(spec_targets(rec_t, base[x].address));
                            } else {
                                assert(doc.objects@[x] == c1[x]);
                                assert(!spec_targets(rec_t, base[x].address));
                            }
                        } else {
                            assert(c1[x] == base[x]);
                            assert(doc.objects@[x] == c1[x]);
                        }
                    }
                }
            }
        }
        t = t + 1;
    }
    proof {
        assert(records@.take(m as int) =~= records@);
    }
    ReinjectReport { attempted: m, succeeded }
}

/// Appending a record that names no address leaves the selection for every
/// address as it was.
pub proof fn lemma_selected_push_no_target(recs: Seq<ReplacementRecord>, r: ReplacementRecord)
    requires
        spec_parsed_addr(r) is None,
    ensures
        forall|addr: ObjectAddress| #[trigger] spec_selected_record(recs.push(r), addr)
            == spec_selected_record(recs, addr),
{
    assert forall|addr: ObjectAddress| #[trigger] spec_selected_record(recs.push(r), addr)
        == spec_selected_record(recs, addr) by {
        lemma_selected_push(recs, r, addr);
    }
}

/// Appending a record selects it for the address it names and changes no
/// other selection.
pub proof fn lemma_selected_push(
    recs: Seq<ReplacementRecord>,
    r: ReplacementRecord,
    addr: ObjectAddress,
)
    ensures
        spec_selected_record(recs.push(r), addr) == if spec_targets(r, addr) {
            Some(r)
        } else {
            spec_selected_record(recs, addr)
        },
{
    assert(recs.push(r).drop_last() =~= recs);
    assert(recs.push(r).last() == r);
}

/// Appending a record adds one to the success count exactly when it is
/// applicable.
pub proof fn lemma_count_push(
    objs: Seq<DocEntry>,
    recs: Seq<ReplacementRecord>,
    r: ReplacementRecord,
)
    ensures
        spec_success_count(objs, recs.push(r)) == spec_success_count(objs, recs)
            + if spec_applicable(objs, r) {
            1int
        } else {
            0int
        },
{
    assert(recs.push(r).drop_last() =~= recs);
    assert(recs.push(r).last() == r);
}

/// Two successive payload replacements on one stream read as the last one
/// alone: the intermediate write is fully overwritten, and the attributes
/// outside the touched set still read as they originally did.
pub proof fn lemma_stream_update_compose(
    st0: StreamObject,
    st1: StreamObject,
    st2: StreamObject,
    data1: Seq<u8>,
    w1: u32,
    h1: u32,
    data2: Seq<u8>,
    w2: u32,
    h2: u32,
)
    requires
        spec_stream_updated(st0, st1, data1, w1, h1),
        spec_stream_updated(st1, st2, data2, w2, h2),
    ensures
        spec_stream_updated(st0, st2, data2, w2, h2),
{
    let d0 = st0.dict.entries@;
    let d1 = st1.dict.entries@;
    let d2 = st2.dict.entries@;
    assert forall|k: Seq<u8>|
        k != width_key() && k != height_key() && k != length_key() && k != filter_key()
            implies #[trigger] dict_get(d2, k) == dict_get(d0, k) by {
        assert(dict_get(d1, k) == dict_get(d0, k));
        assert(dict_get(d2, k) == dict_get(d1, k));
    }
    if dict_has_key(d0, filter_key()) {
        assert(dict_get(d1, filter_key()) == dict_get(d0, filter_key()));
        assert(dict_has_key(d1, filter_key()));
    } else {
        assert(dict_get(d1, filter_key()) is Some);
        assert(dict_has_key(d1, filter_key()));
    }
    assert forall|j: int| 0 <= j < d0.len() implies (#[trigger] d2[j]).key == d0[j].key by {
        assert(d1[j].key == d0[j].key);
        assert(d2[j].key == d1[j].key);
    }
    assert forall|j: int|
        0 <= j < d0.len() && d0[j].key@ != width_key() && d0[j].key@ != height_key()
            && d0[j].key@ != length_key() && d0[j].key@ != filter_key()
            implies #[trigger] d2[j] == d0[j] by {
        assert(d1[j] == d0[j]);
        assert(d2[j] == d1[j]);
    }
    assert forall|j: int|
        d0.len() <= j < d2.len() implies ((#[trigger] d2[j]).key@ == width_key()
            || d2[j].key@ == height_key() || d2[j].key@ == length_key() || d2[j].key@
            == filter_key()) by {
        if j < d1.len() {
            assert(d2[j].key == d1[j].key);
        }
    }
}

} // verus!
