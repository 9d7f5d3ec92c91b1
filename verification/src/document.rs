//! The document walker: recursive traversal of a JSON-like tree.
//!
//! Every string leaf is scanned (by reference, never copied) with the
//! detector, and each detection is tagged with the structural path of its
//! leaf.  Non-string scalars are never scanned nor altered; object and
//! array structure is preserved exactly.  The document model is an owned
//! tree, so traversal cannot revisit a node.

use vstd::prelude::*;

use crate::chars::copy_bytes;
use crate::chars::push_bytes;
use crate::config::wf_config;
use crate::detector::spec_detect;
use crate::detector::Detection;
use crate::detector::Detector;
use crate::masking::dec_vec;
use crate::masking::dec_of;
use crate::masking::mask;
use crate::masking::spec_mask;
use crate::masking::wf_detections;
use crate::patterns::RuleV;

verus! {

/// A node of a structured document: scalars, arrays and objects.
pub enum DocNode {
    Null,
    Bool(bool),
    Int(i64),
    /// A string leaf, as bytes.
    Str(Vec<u8>),
    Arr(Vec<DocNode>),
    Obj(Vec<DocEntry>),
}

/// One key/value pair of an object node.
pub struct DocEntry {
    pub key: Vec<u8>,
    pub value: DocNode,
}

/// A detection found in a document: the detection itself plus the
/// dot/bracket-qualified path of the string leaf it came from.
pub struct DocDetection {
    pub path: Vec<u8>,
    pub det: Detection,
}

/// Path of array element `k` under `prefix`: `prefix[k]`.
pub open spec fn arr_path(prefix: Seq<u8>, k: int) -> Seq<u8> {
    prefix + seq![91u8] + dec_of(k) + seq![93u8]
}

/// Path of object member `key` under `prefix`: `prefix.key` (or `key` at
/// the root).
pub open spec fn obj_path(prefix: Seq<u8>, key: Seq<u8>) -> Seq<u8> {
    if prefix.len() == 0 {
        key
    } else {
        prefix + seq![46u8] + key
    }
}

/// Each detection of a leaf, tagged with the leaf's path.
pub open spec fn tag_all(prefix: Seq<u8>, dets: Seq<Detection>) -> Seq<(Seq<u8>, Detection)> {
    Seq::new(dets.len(), |q: int| (prefix, dets[q]))
}

/// The path-tagged detections of `node`, depth first: array elements in
/// index order, object members in entry order, string leaves scanned with
/// [`spec_detect`], every other scalar skipped.
pub open spec fn doc_dets(rules: Seq<RuleV>, min: u32, node: DocNode, prefix: Seq<u8>) -> Seq<
    (Seq<u8>, Detection),
>
    decreases node, 0int, 0int,
{
    match node {
        DocNode::Str(sv) => tag_all(prefix, spec_detect(rules, min, sv@)),
        DocNode::Arr(items) => arr_dets(rules, min, items@, prefix, items@.len() as int),
        DocNode::Obj(entries) => obj_dets(rules, min, entries@, prefix, entries@.len() as int),
        _ => Seq::empty(),
    }
}

/// Detections of the first `n` elements of an array node.
pub open spec fn arr_dets(
    rules: Seq<RuleV>,
    min: u32,
    items: Seq<DocNode>,
    prefix: Seq<u8>,
    n: int,
) -> Seq<(Seq<u8>, Detection)>
    decreases items, 1int, n,
{
    if n <= 0 || n > items.len() {
        Seq::empty()
    } else {
        arr_dets(rules, min, items, prefix, n - 1) + doc_dets(
            rules,
            min,
            items[n - 1],
            arr_path(prefix, n - 1),
        )
    }
}

/// Detections of the first `n` members of an object node.
pub open spec fn obj_dets(
    rules: Seq<RuleV>,
    min: u32,
    entries: Seq<DocEntry>,
    prefix: Seq<u8>,
    n: int,
) -> Seq<(Seq<u8>, Detection)>
    decreases entries, 1int, n,
{
    if n <= 0 || n > entries.len() {
        Seq::empty()
    } else {
        obj_dets(rules, min, entries, prefix, n - 1) + doc_dets(
            rules,
            min,
            entries[n - 1].value,
            obj_path(prefix, entries[n - 1].key@),
        )
    }
}

/// The slice of `outs` starting at `base` matches the tagged detections `t`.
pub open spec fn matches_tagged(
    outs: Seq<DocDetection>,
    base: int,
    t: Seq<(Seq<u8>, Detection)>,
) -> bool {
    forall|q: int| 0 <= q < t.len() ==> (#[trigger] outs[base + q]).path@ == t[q].0
        && outs[base + q].det == t[q].1
}

fn arr_child_path(path: &Vec<u8>, k: usize) -> (p: Vec<u8>)
    ensures
        p@ == arr_path(path@, k as int),
{
    let mut p = copy_bytes(path);
    p.push(91);
    let d = dec_vec(k);
    push_bytes(&mut p, &d);
    p.push(93);
    proof {
        assert(p@ =~= arr_path(path@, k as int));
    }
    p
}

fn obj_child_path(path: &Vec<u8>, key: &Vec<u8>) -> (p: Vec<u8>)
    ensures
        p@ == obj_path(path@, key@),
{
    if path.len() == 0 {
        copy_bytes(key)
    } else {
        let mut p = copy_bytes(path);
        p.push(46);
        push_bytes(&mut p, key);
        proof {
            assert(p@ =~= obj_path(path@, key@));
        }
        p
    }
}

/// Depth-first traversal: appends the path-tagged detections of `node`
/// under `path` to `out`.  String leaves are scanned by reference; other
/// scalars are skipped.
fn walk_detect(det: &Detector, node: &DocNode, path: &Vec<u8>, out: &mut Vec<DocDetection>)
    requires
        wf_config(det.config@),
    ensures
        final(out)@.len() == old(out)@.len() + doc_dets(
            det.config@.rules,
            det.config@.minimum_confidence,
            *node,
            path@,
        ).len(),
        forall|q: int| 0 <= q < old(out)@.len() ==> #[trigger] final(out)@[q] == old(out)@[q],
        matches_tagged(
            final(out)@,
            old(out)@.len() as int,
            doc_dets(det.config@.rules, det.config@.minimum_confidence, *node, path@),
        ),
    decreases node,
{
    let ghost rules = det.config@.rules;
    let ghost min = det.config@.minimum_confidence;
    let ghost base = out@.len() as int;
    match node {
        DocNode::Str(sv) => {
            let dets = det.detect(sv);
            let ghost t = tag_all(path@, dets@);
            let mut k: usize = 0;
            while k < dets.len()
                invariant
                    k <= dets@.len(),
                    t == tag_all(path@, dets@),
                    t.len() == dets@.len(),
                    out@.len() == base + k,
                    forall|q: int| 0 <= q < base ==> #[trigger] out@[q] == old(out)@[q],
                    forall|q: int| 0 <= q < k ==> (#[trigger] out@[base + q]).path@ == t[q].0
                        && out@[base + q].det == t[q].1,
                decreases dets@.len() - k,
            {
                out.push(DocDetection { path: copy_bytes(path), det: dets[k] });
                k = k + 1;
            }
        },
        DocNode::Arr(items) => {
            let mut k: usize = 0;
            while k < items.len()
                invariant
                    wf_config(det.config@),
                    rules == det.config@.rules,
                    min == det.config@.minimum_confidence,
                    k <= items@.len(),
                    out@.len() == base + arr_dets(rules, min, items@, path@, k as int).len(),
                    forall|q: int| 0 <= q < base ==> #[trigger] out@[q] == old(out)@[q],
                    matches_tagged(out@, base, arr_dets(rules, min, items@, path@, k as int)),
                decreases items@.len() - k,
            {
                let ghost pre = out@;
                let ghost t_pre = arr_dets(rules, min, items@, path@, k as int);
                let child = arr_child_path(path, k);
                walk_detect(det, &items[k], &child, out);
                proof {
                    let t_k = doc_dets(rules, min, items@[k as int], arr_path(path@, k as int));
                    let t_next = arr_dets(rules, min, items@, path@, k + 1);
                    assert(t_next == t_pre + t_k);
                    assert forall|q: int| 0 <= q < t_next.len() implies (
                    #[trigger] out@[base + q]).path@ == t_next[q].0 && out@[base + q].det
                        == t_next[q].1 by {
                        if q < t_pre.len() {
                            assert(out@[base + q] == pre[base + q]);
                            assert(t_next[q] == t_pre[q]);
                        } else {
                            assert(t_next[q] == t_k[q - t_pre.len()]);
                            assert(out@[pre.len() + (q - t_pre.len())].path@ == t_k[q
                                - t_pre.len()].0);
                        }
                    }
                }
                k = k + 1;
            }
        },
        DocNode::Obj(entries) => {
            let mut k: usize = 0;
            while k < entries.len()
                invariant
                    wf_config(det.config@),
                    rules == det.config@.rules,
                    min == det.config@.minimum_confidence,
                    k <= entries@.len(),
                    out@.len() == base + obj_dets(rules, min, entries@, path@, k as int).len(),
                    forall|q: int| 0 <= q < base ==> #[trigger] out@[q] == old(out)@[q],
                    matches_tagged(out@, base, obj_dets(rules, min, entries@, path@, k as int)),
                decreases entries@.len() - k,
            {
                let ghost pre = out@;
                let ghost t_pre = obj_dets(rules, min, entries@, path@, k as int);
                let e = &entries[k];
                let child = obj_child_path(path, &e.key);
                walk_detect(det, &e.value, &child, out);
                proof {
                    let t_k = doc_dets(
                        rules,
                        min,
                        entries@[k as int].value,
                        obj_path(path@, entries@[k as int].key@),
                    );
                    let t_next = obj_dets(rules, min, entries@, path@, k + 1);
                    assert(t_next == t_pre + t_k);
                    assert forall|q: int| 0 <= q < t_next.len() implies (
                    #[trigger] out@[base + q]).path@ == t_next[q].0 && out@[base + q].det
                        == t_next[q].1 by {
                        if q < t_pre.len() {
                            assert(out@[base + q] == pre[base + q]);
                            assert(t_next[q] == t_pre[q]);
                        } else {
                            assert(t_next[q] == t_k[q - t_pre.len()]);
                            assert(out@[pre.len() + (q - t_pre.len())].path@ == t_k[q
                                - t_pre.len()].0);
                        }
                    }
                }
                k = k + 1;
            }
        },
        _ => {},
    }
}

/// Scans every string leaf of `doc` and returns each detection tagged with
/// the structural path of its leaf, depth first.
pub fn detect_document(det: &Detector, doc: &DocNode) -> (out: Vec<DocDetection>)
    requires
        wf_config(det.config@),
    ensures
        out@.len() == doc_dets(
            det.config@.rules,
            det.config@.minimum_confidence,
            *doc,
            Seq::empty(),
        ).len(),
        matches_tagged(
            out@,
            0,
            doc_dets(det.config@.rules, det.config@.minimum_confidence, *doc, Seq::empty()),
        ),
{
    let mut out: Vec<DocDetection> = Vec::new();
    let root: Vec<u8> = Vec::new();
    walk_detect(det, doc, &root, &mut out);
    out
}

/// `out` is `orig` with every string leaf masked and everything else kept:
/// same structure, same keys, same array order and length, non-string
/// scalars untouched.
pub open spec fn doc_masked_rel(c: crate::config::ConfigV, orig: DocNode, out: DocNode) -> bool
    decreases orig,
{
    match orig {
        DocNode::Null => out is Null,
        DocNode::Bool(b) => out == DocNode::Bool(b),
        DocNode::Int(x) => out == DocNode::Int(x),
        DocNode::Str(sv) => out matches DocNode::Str(mv) && mv@ == spec_mask(
            c,
            sv@,
            spec_detect(c.rules, c.minimum_confidence, sv@),
        ),
        DocNode::Arr(items) => out matches DocNode::Arr(m) && m@.len() == items@.len()
            && forall|q: int| 0 <= q < items@.len() ==> doc_masked_rel(
            c,
            #[trigger] items@[q],
            m@[q],
        ),
        DocNode::Obj(entries) => out matches DocNode::Obj(m) && m@.len() == entries@.len()
            && forall|q: int| 0 <= q < entries@.len() ==> (#[trigger] m@[q]).key@
            == entries@[q].key@ && doc_masked_rel(c, entries@[q].value, m@[q].value),
    }
}

/// Rebuilds `doc` with every string leaf masked per the detector's own
/// detections of that leaf, leaving structure and non-string scalars
/// untouched.
pub fn mask_document(det: &Detector, doc: &DocNode) -> (out: DocNode)
    requires
        wf_config(det.config@),
    ensures
        doc_masked_rel(det.config@, *doc, out),
    decreases doc,
{
    let ghost c = det.config@;
    match doc {
        DocNode::Null => DocNode::Null,
        DocNode::Bool(b) => DocNode::Bool(*b),
        DocNode::Int(x) => DocNode::Int(*x),
        DocNode::Str(sv) => {
            let dets = det.detect(sv);
            proof {
                assert(wf_detections(dets@, sv@.len() as int));
            }
            match mask(&det.config, sv, &dets) {
                Ok(m) => DocNode::Str(m),
                Err(_) => {
                    proof {
                        assert(false);
                    }
                    DocNode::Null
                },
            }
        },
        DocNode::Arr(items) => {
            let mut m: Vec<DocNode> = Vec::new();
            let mut k: usize = 0;
            while k < items.len()
                invariant
                    wf_config(det.config@),
                    c == det.config@,
                    k <= items@.len(),
                    m@.len() == k,
                    forall|q: int| 0 <= q < k ==> doc_masked_rel(c, #[trigger] items@[q], m@[q]),
                decreases items@.len() - k,
            {
                let child = mask_document(det, &items[k]);
                m.push(child);
                k = k + 1;
            }
            DocNode::Arr(m)
        },
        DocNode::Obj(entries) => {
            let mut m: Vec<DocEntry> = Vec::new();
            let mut k: usize = 0;
            while k < entries.len()
                invariant
                    wf_config(det.config@),
                    c == det.config@,
                    k <= entries@.len(),
                    m@.len() == k,
                    forall|q: int| 0 <= q < k ==> (#[trigger] m@[q]).key@ == entries@[q].key@
                        && doc_masked_rel(c, entries@[q].value, m@[q].value),
                decreases entries@.len() - k,
            {
                let e = &entries[k];
                let child = mask_document(det, &e.value);
                m.push(DocEntry { key: copy_bytes(&e.key), value: child });
                k = k + 1;
            }
            DocNode::Obj(m)
        },
    }
}

/// Document masking preserves structure: non-string scalars come back
/// unchanged, arrays keep their length and order, objects keep their keys.
pub proof fn lemma_mask_document_preserves_structure(
    c: crate::config::ConfigV,
    o: DocNode,
    m: DocNode,
)
    requires
        doc_masked_rel(c, o, m),
    ensures
        o is Null ==> m is Null,
        o is Bool ==> m == o,
        o is Int ==> m == o,
        o matches DocNode::Arr(items) ==> (m matches DocNode::Arr(mi) && mi@.len()
            == items@.len()),
        o matches DocNode::Obj(es) ==> (m matches DocNode::Obj(ms) && ms@.len() == es@.len()
            && forall|q: int| 0 <= q < es@.len() ==> (#[trigger] ms@[q]).key@ == es@[q].key@),
{
}

} // verus!
