//! Edits, edit lists, and the diff and fuzzy patch primitives.
//!
//! Positions and lengths in edits are UTF-8 byte offsets into the text the
//! edit applies to.

use vstd::prelude::*;
use vstd::string::*;
use vstd::utf8::*;

use crate::text::{
    byte_len, bytes_of, chars_of, hex_of, lemma_bytes_nonempty, lemma_three_parts, splice, to_hex,
    utf8_len,
};

verus! {

broadcast use vstd::utf8::encode_utf8_valid_utf8, vstd::utf8::encode_utf8_decode_utf8;

/// A single edit operation.
#[derive(Debug, PartialEq, Eq)]
pub enum Edit {
    /// Insert `text` at byte offset `pos`.
    Insert { pos: usize, text: String },
    /// Remove `len` bytes starting at `pos`.
    Delete { pos: usize, len: usize },
    /// Replace the `old_len` bytes starting at `pos` with `new_text`.
    Replace { pos: usize, old_len: usize, new_text: String },
}

/// The mathematical form of an [`Edit`].
pub enum EditView {
    Insert { pos: nat, text: Seq<char> },
    Delete { pos: nat, len: nat },
    Replace { pos: nat, old_len: nat, new_text: Seq<char> },
}

impl View for Edit {
    type V = EditView;

    open spec fn view(&self) -> EditView {
        match self {
            Edit::Insert { pos, text } => EditView::Insert { pos: *pos as nat, text: text@ },
            Edit::Delete { pos, len } => EditView::Delete { pos: *pos as nat, len: *len as nat },
            Edit::Replace { pos, old_len, new_text } => EditView::Replace {
                pos: *pos as nat,
                old_len: *old_len as nat,
                new_text: new_text@,
            },
        }
    }
}

impl Clone for Edit {
    fn clone(&self) -> (r: Self)
        ensures
            r == *self,
    {
        match self {
            Edit::Insert { pos, text } => Edit::Insert { pos: *pos, text: text.clone() },
            Edit::Delete { pos, len } => Edit::Delete { pos: *pos, len: *len },
            Edit::Replace { pos, old_len, new_text } => Edit::Replace {
                pos: *pos,
                old_len: *old_len,
                new_text: new_text.clone(),
            },
        }
    }
}

/// An ordered list of edits, with the checksum of the text they were derived from.
#[derive(Debug, PartialEq, Eq)]
pub struct EditList {
    pub edits: Vec<Edit>,
    pub checksum: String,
}

impl EditList {
    /// The edits of the list, as mathematical values.
    pub open spec fn ops(&self) -> Seq<EditView> {
        self.edits@.map_values(|e: Edit| e@)
    }

    pub fn new(edits: Vec<Edit>, source: &str) -> (r: Self)
        ensures
            r.edits@ == edits@,
            r.checksum@ == checksum_of(source@),
    {
        EditList { edits, checksum: checksum(source) }
    }

    pub fn empty(source: &str) -> (r: Self)
        ensures
            r.edits@.len() == 0,
            r.checksum@ == checksum_of(source@),
    {
        Self::new(Vec::new(), source)
    }

    pub fn is_empty(&self) -> (r: bool)
        ensures
            r == (self.edits@.len() == 0),
    {
        self.edits.len() == 0
    }

    pub fn len(&self) -> (r: usize)
        ensures
            r == self.edits@.len(),
    {
        self.edits.len()
    }
}

impl Clone for EditList {
    fn clone(&self) -> (r: Self)
        ensures
            r.edits@ == self.edits@,
            r.checksum == self.checksum,
    {
        let edits = self.edits.clone();
        assert(edits@ =~= self.edits@);
        EditList { edits, checksum: self.checksum.clone() }
    }
}

/// Sum of the code points of `s`, wrapping at 2^32.
pub open spec fn codepoint_sum(s: Seq<char>) -> u32
    decreases s.len(),
{
    if s.len() == 0 {
        0
    } else {
        codepoint_sum(s.drop_last()).wrapping_add(s.last() as u32)
    }
}

/// The byte length of `s` combined by exclusive or with its code point sum.
pub open spec fn checksum_value(s: Seq<char>) -> u64 {
    ((utf8_len(s) as usize) ^ (codepoint_sum(s) as usize)) as u64
}

/// The checksum text of `s`: `checksum_value(s)` in lower-case hexadecimal.
pub open spec fn checksum_of(s: Seq<char>) -> Seq<char> {
    hex_of(checksum_value(s) as nat)
}

/// A cheap fingerprint of `text`.
pub fn checksum(text: &str) -> (r: String)
    ensures
        r@ == checksum_of(text@),
{
    let cs = chars_of(text);
    let mut sum: u32 = 0;
    let mut i: usize = 0;
    while i < cs.len()
        invariant
            i <= cs@.len(),
            cs@ == text@,
            sum == codepoint_sum(cs@.take(i as int)),
        decreases cs@.len() - i,
    {
        assert(cs@.take(i + 1).drop_last() =~= cs@.take(i as int));
        sum = sum.wrapping_add(cs[i] as u32);
        i += 1;
    }
    assert(cs@.take(i as int) =~= text@);
    let v: usize = text.len() ^ (sum as usize);
    to_hex(v as u64)
}


/// Length of the common character prefix of `a` and `b`, counting on from `i`.
pub open spec fn prefix_from(a: Seq<char>, b: Seq<char>, i: nat) -> nat
    decreases a.len() - i,
{
    if i < a.len() && i < b.len() && a[i as int] == b[i as int] {
        prefix_from(a, b, i + 1)
    } else {
        i
    }
}

/// Length of the longest common character prefix of `a` and `b`.
pub open spec fn common_prefix_len(a: Seq<char>, b: Seq<char>) -> nat {
    prefix_from(a, b, 0)
}

/// Length of the common character suffix of `a` and `b` that stays clear of
/// their first `p` characters, counting on from `j`.
pub open spec fn suffix_from(a: Seq<char>, b: Seq<char>, p: nat, j: nat) -> nat
    decreases a.len() - j,
{
    if j + p < a.len() && j + p < b.len() && a[a.len() - 1 - j] == b[b.len() - 1 - j] {
        suffix_from(a, b, p, j + 1)
    } else {
        j
    }
}

/// Length of the longest common character suffix of `a` and `b` that does not
/// overlap their common prefix.
pub open spec fn common_suffix_len(a: Seq<char>, b: Seq<char>) -> nat {
    suffix_from(a, b, common_prefix_len(a, b), 0)
}

/// The edits that `diff` emits to turn `a` into `b`: at most one edit over the
/// part between the common prefix and the common suffix.
pub open spec fn diff_spec(a: Seq<char>, b: Seq<char>) -> Seq<EditView> {
    let p = common_prefix_len(a, b);
    let s = common_suffix_len(a, b);
    let am = a.subrange(p as int, a.len() - s);
    let bm = b.subrange(p as int, b.len() - s);
    let pos = utf8_len(a.take(p as int));
    if am.len() == 0 && bm.len() == 0 {
        seq![]
    } else if am.len() == 0 {
        seq![EditView::Insert { pos, text: bm }]
    } else if bm.len() == 0 {
        seq![EditView::Delete { pos, len: utf8_len(am) }]
    } else {
        seq![EditView::Replace { pos, old_len: utf8_len(am), new_text: bm }]
    }
}

proof fn lemma_prefix_from(a: Seq<char>, b: Seq<char>, i: nat)
    requires
        i <= a.len(),
        i <= b.len(),
        forall|k: int| 0 <= k < i ==> a[k] == b[k],
    ensures
        i <= prefix_from(a, b, i) <= a.len(),
        prefix_from(a, b, i) <= b.len(),
        forall|k: int| 0 <= k < prefix_from(a, b, i) ==> a[k] == b[k],
        prefix_from(a, b, i) < a.len() && prefix_from(a, b, i) < b.len() ==> a[prefix_from(
            a,
            b,
            i,
        ) as int] != b[prefix_from(a, b, i) as int],
    decreases a.len() - i,
{
    if i < a.len() && i < b.len() && a[i as int] == b[i as int] {
        lemma_prefix_from(a, b, i + 1);
    }
}

/// The character `k` places from the end of `s`.
spec fn back(s: Seq<char>, k: int) -> char {
    s[s.len() - 1 - k]
}

proof fn lemma_suffix_from(a: Seq<char>, b: Seq<char>, p: nat, j: nat)
    requires
        j + p <= a.len(),
        j + p <= b.len(),
        forall|k: int| 0 <= k < j ==> #[trigger] back(a, k) == back(b, k),
    ensures
        j <= suffix_from(a, b, p, j),
        suffix_from(a, b, p, j) + p <= a.len(),
        suffix_from(a, b, p, j) + p <= b.len(),
        forall|k: int| 0 <= k < suffix_from(a, b, p, j) ==> #[trigger] back(a, k) == back(b, k),
    decreases a.len() - j,
{
    if j + p < a.len() && j + p < b.len() && a[a.len() - 1 - j] == b[b.len() - 1 - j] {
        lemma_suffix_from(a, b, p, j + 1);
    }
}

/// The common prefix and suffix of `a` and `b` fit in both and agree on both;
/// what lies around the middle parts is shared.
pub proof fn lemma_common_parts(a: Seq<char>, b: Seq<char>)
    ensures
        ({
            let p = common_prefix_len(a, b);
            let s = common_suffix_len(a, b);
            &&& p + s <= a.len()
            &&& p + s <= b.len()
            &&& a.take(p as int) == b.take(p as int)
            &&& a.skip(a.len() - s) == b.skip(b.len() - s)
            &&& a == a.take(p as int) + a.subrange(p as int, a.len() - s) + a.skip(a.len() - s)
            &&& b == b.take(p as int) + b.subrange(p as int, b.len() - s) + b.skip(b.len() - s)
        }),
{
    lemma_prefix_from(a, b, 0);
    let p = common_prefix_len(a, b);
    lemma_suffix_from(a, b, p, 0);
    let s = common_suffix_len(a, b);
    assert(a.take(p as int) =~= b.take(p as int));
    assert forall|k: int| 0 <= k < s implies #[trigger] a.skip(a.len() - s)[k] == b.skip(
        b.len() - s,
    )[k] by {
        assert(a.skip(a.len() - s)[k] == back(a, s - 1 - k));
        assert(b.skip(b.len() - s)[k] == back(b, s - 1 - k));
    }
    assert(a.skip(a.len() - s) =~= b.skip(b.len() - s));
    assert(a =~= a.take(p as int) + a.subrange(p as int, a.len() - s) + a.skip(a.len() - s));
    assert(b =~= b.take(p as int) + b.subrange(p as int, b.len() - s) + b.skip(b.len() - s));
}

/// Computes the edits that turn `from` into `to`; the checksum is that of `from`.
pub fn diff(from: &str, to: &str) -> (r: EditList)
    ensures
        r.ops() == diff_spec(from@, to@),
        r.checksum@ == checksum_of(from@),
        r.ops().len() <= 1,
        r.ops().len() == 0 <==> from@ == to@,
{
    proof {
        lemma_diff_empty_iff_equal(from@, to@);
        lemma_diff_on_boundaries(from@, to@);
    }
    let fc = chars_of(from);
    let tc = chars_of(to);
    let ghost a = from@;
    let ghost b = to@;
    let mut p: usize = 0;
    while p < fc.len() && p < tc.len() && fc[p] == tc[p]
        invariant
            fc@ == a,
            tc@ == b,
            p <= fc@.len(),
            p <= tc@.len(),
            prefix_from(a, b, p as nat) == common_prefix_len(a, b),
        decreases fc@.len() - p,
    {
        p += 1;
    }
    let mut s: usize = 0;
    assert(prefix_from(a, b, p as nat) == p);
    while s < fc.len() - p && s < tc.len() - p && fc[fc.len() - 1 - s] == tc[tc.len() - 1 - s]
        invariant
            fc@ == a,
            tc@ == b,
            p == common_prefix_len(a, b),
            p <= fc@.len(),
            p <= tc@.len(),
            s + p <= fc@.len(),
            s + p <= tc@.len(),
            suffix_from(a, b, p as nat, s as nat) == common_suffix_len(a, b),
        decreases fc@.len() - s,
    {
        s += 1;
    }
    let prefix = from.substring_char(0, p);
    let prefix_bytes = byte_len(prefix);
    let from_mid = from.substring_char(p, fc.len() - s);
    let to_mid = to.substring_char(p, tc.len() - s);
    let mut edits: Vec<Edit> = Vec::new();
    if from_mid.is_empty() && to_mid.is_empty() {
    } else if from_mid.is_empty() {
        edits.push(Edit::Insert { pos: prefix_bytes, text: to_mid.to_owned() });
    } else if to_mid.is_empty() {
        edits.push(Edit::Delete { pos: prefix_bytes, len: byte_len(from_mid) });
    } else {
        edits.push(
            Edit::Replace {
                pos: prefix_bytes,
                old_len: byte_len(from_mid),
                new_text: to_mid.to_owned(),
            },
        );
    }
    let r = EditList::new(edits, from);
    assert(r.ops() =~= diff_spec(a, b));
    r
}


/// Why a patch could not be applied. `patch` itself only ever reports
/// `InvalidPosition`; the others are for stricter callers that check the
/// source checksum or the shape of edits.
#[derive(Debug, Clone, Copy, PartialEq, Eq, Structural)]
pub enum PatchError {
    /// The text does not match the checksum the edits were made against.
    ChecksumMismatch,
    /// A position falls inside a multi-byte character.
    InvalidPosition,
    /// An edit is malformed.
    InvalidEdit,
}

impl PatchError {
    /// A short description of the error.
    pub fn message(&self) -> (r: String)
        ensures
            r@ == error_message(*self),
    {
        match self {
            PatchError::ChecksumMismatch => "Checksum mismatch".to_owned(),
            PatchError::InvalidPosition => "Invalid position".to_owned(),
            PatchError::InvalidEdit => "Invalid edit".to_owned(),
        }
    }
}

/// The description of each patch error.
pub open spec fn error_message(e: PatchError) -> Seq<char> {
    match e {
        PatchError::ChecksumMismatch => "Checksum mismatch"@,
        PatchError::InvalidPosition => "Invalid position"@,
        PatchError::InvalidEdit => "Invalid edit"@,
    }
}

/// `x` clamped to at most `n`.
pub open spec fn clamp(x: int, n: int) -> int {
    if x < n {
        x
    } else {
        n
    }
}

/// One edit applied to the UTF-8 bytes `t`, with positions clamped to the end
/// of `t`; `None` where a cut would fall inside a character.
pub open spec fn apply_op(t: Seq<u8>, e: EditView) -> Option<Seq<u8>> {
    let n = t.len() as int;
    match e {
        EditView::Insert { pos, text } => {
            let p = clamp(pos as int, n);
            if is_char_boundary(t, p) {
                Some(t.take(p) + bytes_of(text) + t.skip(p))
            } else {
                None
            }
        },
        EditView::Delete { pos, len } => {
            let a = clamp(pos as int, n);
            let b = clamp(a + len, n);
            if a < b {
                if is_char_boundary(t, a) && is_char_boundary(t, b) {
                    Some(t.take(a) + t.skip(b))
                } else {
                    None
                }
            } else {
                Some(t)
            }
        },
        EditView::Replace { pos, old_len, new_text } => {
            let a = clamp(pos as int, n);
            let b = clamp(a + old_len, n);
            if is_char_boundary(t, a) && is_char_boundary(t, b) {
                Some(t.take(a) + bytes_of(new_text) + t.skip(b))
            } else {
                None
            }
        },
    }
}

/// The edits applied to the bytes `t` from the last one to the first.
pub open spec fn apply_ops(t: Seq<u8>, ops: Seq<EditView>) -> Option<Seq<u8>>
    decreases ops.len(),
{
    if ops.len() == 0 {
        Some(t)
    } else {
        match apply_op(t, ops.last()) {
            Some(t2) => apply_ops(t2, ops.drop_last()),
            None => None,
        }
    }
}

/// The text that patching `t` with `ops` gives, or `None` where an edit would
/// cut a character in two.
pub open spec fn patch_text(t: Seq<char>, ops: Seq<EditView>) -> Option<Seq<char>> {
    match apply_ops(bytes_of(t), ops) {
        Some(b) => Some(decode_utf8(b)),
        None => None,
    }
}

/// Applies the edits of `edit_list` to `text`, last edit first, clamping every
/// position and length to the end of the text.
///
/// Fails with `InvalidPosition` only where a clamped position falls inside a
/// multi-byte character.
pub fn patch(text: &str, edit_list: &EditList) -> (r: Result<String, PatchError>)
    ensures
        match r {
            Ok(s) => {
                &&& patch_text(text@, edit_list.ops()) == Some(s@)
                &&& apply_ops(bytes_of(text@), edit_list.ops()) == Some(bytes_of(s@))
            },
            Err(e) => {
                &&& e == PatchError::InvalidPosition
                &&& patch_text(text@, edit_list.ops()) is None
            },
        },
        edit_list.ops().len() == 0 ==> (r matches Ok(s) && s@ == text@),
{
    let ghost ops = edit_list.ops();
    let mut result = text.to_owned();
    let mut i: usize = edit_list.edits.len();
    assert(ops.take(i as int) =~= ops);
    while i > 0
        invariant
            i <= edit_list.edits@.len(),
            ops == edit_list.ops(),
            apply_ops(bytes_of(text@), ops) == apply_ops(bytes_of(result@), ops.take(i as int)),
        decreases i,
    {
        assert(ops.take(i as int).drop_last() =~= ops.take(i - 1));
        assert(ops.take(i as int).last() == edit_list.edits@[i - 1]@);
        i -= 1;
        let n = byte_len(result.as_str());
        match &edit_list.edits[i] {
            Edit::Insert { pos, text: ins } => {
                let p = if *pos < n {
                    *pos
                } else {
                    n
                };
                if !result.as_str().is_char_boundary(p) {
                    return Err(PatchError::InvalidPosition);
                }
                result = splice(result.as_str(), p, p, ins.as_str());
            },
            Edit::Delete { pos, len } => {
                let a = if *pos < n {
                    *pos
                } else {
                    n
                };
                let b = if *len < n - a {
                    a + *len
                } else {
                    n
                };
                if a < b {
                    if !result.as_str().is_char_boundary(a) || !result.as_str().is_char_boundary(
                        b,
                    ) {
                        return Err(PatchError::InvalidPosition);
                    }
                    proof {
                        reveal_strlit("");
                    }
                    result = splice(result.as_str(), a, b, "");
                    assert(bytes_of(""@) =~= Seq::<u8>::empty());
                }
            },
            Edit::Replace { pos, old_len, new_text } => {
                let a = if *pos < n {
                    *pos
                } else {
                    n
                };
                let b = if *old_len < n - a {
                    a + *old_len
                } else {
                    n
                };
                if !result.as_str().is_char_boundary(a) || !result.as_str().is_char_boundary(b) {
                    return Err(PatchError::InvalidPosition);
                }
                result = splice(result.as_str(), a, b, new_text.as_str());
            },
        }
    }
    assert(ops.take(0) =~= Seq::<EditView>::empty());
    Ok(result)
}


/// Patching `a` with the diff from `a` to `b` gives `b`.
pub proof fn lemma_diff_patch_round_trip(a: Seq<char>, b: Seq<char>)
    ensures
        patch_text(a, diff_spec(a, b)) == Some(b),
        apply_ops(bytes_of(a), diff_spec(a, b)) == Some(bytes_of(b)),
{
    lemma_common_parts(a, b);
    let p = common_prefix_len(a, b);
    let s = common_suffix_len(a, b);
    let pa = a.take(p as int);
    let am = a.subrange(p as int, a.len() - s);
    let bm = b.subrange(p as int, b.len() - s);
    let sa = a.skip(a.len() - s);
    let ops = diff_spec(a, b);
    let t = bytes_of(a);
    lemma_three_parts(pa, am, sa);
    lemma_three_parts(pa, bm, sa);
    let pos = utf8_len(pa) as int;
    assert(b == pa + bm + sa);
    assert(t == bytes_of(pa) + bytes_of(am) + bytes_of(sa));
    if am.len() == 0 && bm.len() == 0 {
        assert(a =~= b);
    } else {
        assert(ops.len() == 1);
        assert(ops.drop_last() =~= Seq::<EditView>::empty());
        if am.len() == 0 {
            assert(am =~= Seq::<char>::empty());
            assert(ops.last() == EditView::Insert { pos: pos as nat, text: bm });
            assert(t.take(pos) + bytes_of(bm) + t.skip(pos) =~= bytes_of(b));
            assert(apply_op(t, ops.last()) == Some(bytes_of(b)));
        } else {
            lemma_bytes_nonempty(am);
            if bm.len() == 0 {
                assert(bm =~= Seq::<char>::empty());
                assert(ops.last() == EditView::Delete { pos: pos as nat, len: utf8_len(am) });
                assert(t.take(pos) + t.skip(pos + utf8_len(am)) =~= bytes_of(b));
                assert(apply_op(t, ops.last()) == Some(bytes_of(b)));
            } else {
                assert(ops.last() == EditView::Replace {
                    pos: pos as nat,
                    old_len: utf8_len(am),
                    new_text: bm,
                });
                assert(t.take(pos) + bytes_of(bm) + t.skip(pos + utf8_len(am)) =~= bytes_of(b));
                assert(apply_op(t, ops.last()) == Some(bytes_of(b)));
            }
        }
        assert(apply_ops(t, ops) == apply_ops(bytes_of(b), ops.drop_last()));
    }
    assert(decode_utf8(bytes_of(b)) == b);
}

/// The diff of a text with itself is empty, and only then.
pub proof fn lemma_diff_empty_iff_equal(a: Seq<char>, b: Seq<char>)
    ensures
        diff_spec(a, b).len() == 0 <==> a == b,
        diff_spec(a, a).len() == 0,
{
    lemma_common_parts(a, b);
    lemma_common_parts(a, a);
    lemma_prefix_from(a, a, 0);
    let p = common_prefix_len(a, a);
    lemma_suffix_from(a, a, p, 0);
    if diff_spec(a, b).len() == 0 {
        assert(a =~= b);
    }
}

/// Patching with no edits leaves the text as it is.
pub proof fn lemma_patch_no_edits(t: Seq<char>)
    ensures
        patch_text(t, Seq::<EditView>::empty()) == Some(t),
{
}

/// The diff from the empty text is one insertion of the whole target at 0.
pub proof fn lemma_diff_from_empty(b: Seq<char>)
    requires
        b.len() > 0,
    ensures
        diff_spec(Seq::<char>::empty(), b) == seq![EditView::Insert { pos: 0, text: b }],
{
    let a = Seq::<char>::empty();
    lemma_prefix_from(a, b, 0);
    lemma_suffix_from(a, b, 0, 0);
    assert(b.subrange(0, b.len() as int) =~= b);
    assert(a.take(0) =~= a);
}

/// The diff to the empty text is one deletion of all bytes from 0.
pub proof fn lemma_diff_to_empty(a: Seq<char>)
    requires
        a.len() > 0,
    ensures
        diff_spec(a, Seq::<char>::empty()) == seq![EditView::Delete { pos: 0, len: utf8_len(a) }],
{
    let b = Seq::<char>::empty();
    lemma_prefix_from(a, b, 0);
    lemma_suffix_from(a, b, 0, 0);
    assert(a.subrange(0, a.len() as int) =~= a);
    assert(a.take(0) =~= b);
}

/// Every position an edit cuts at falls on a character boundary of `t`.
pub open spec fn on_boundaries(t: Seq<u8>, e: EditView) -> bool {
    match e {
        EditView::Insert { pos, .. } => is_char_boundary(t, pos as int),
        EditView::Delete { pos, len } => is_char_boundary(t, pos as int) && is_char_boundary(
            t,
            (pos + len) as int,
        ),
        EditView::Replace { pos, old_len, .. } => is_char_boundary(t, pos as int)
            && is_char_boundary(t, (pos + old_len) as int),
    }
}

/// The diff of `a` to `b` has at most one edit, and it cuts `a`'s bytes only at
/// character boundaries.
pub proof fn lemma_diff_on_boundaries(a: Seq<char>, b: Seq<char>)
    ensures
        diff_spec(a, b).len() <= 1,
        forall|i: int|
            0 <= i < diff_spec(a, b).len() ==> on_boundaries(bytes_of(a), #[trigger] diff_spec(
                a,
                b,
            )[i]),
{
    lemma_common_parts(a, b);
    let p = common_prefix_len(a, b);
    let s = common_suffix_len(a, b);
    lemma_three_parts(a.take(p as int), a.subrange(p as int, a.len() - s), a.skip(a.len() - s));
}

/// An edit whose position lies at or past the end of the text applies at the
/// end: an insertion or replacement appends its text, a deletion does nothing.
pub proof fn lemma_patch_past_end(t: Seq<char>, e: EditView)
    requires
        match e {
            EditView::Insert { pos, .. } => pos >= utf8_len(t),
            EditView::Delete { pos, .. } => pos >= utf8_len(t),
            EditView::Replace { pos, .. } => pos >= utf8_len(t),
        },
    ensures
        patch_text(t, seq![e]) == Some(
            match e {
                EditView::Insert { text, .. } => t + text,
                EditView::Delete { .. } => t,
                EditView::Replace { new_text, .. } => t + new_text,
            },
        ),
{
    let bt = bytes_of(t);
    is_char_boundary_start_end_of_seq(bt);
    assert(seq![e].drop_last() =~= Seq::<EditView>::empty());
    assert(bt.take(bt.len() as int) =~= bt);
    assert(bt.skip(bt.len() as int) =~= Seq::<u8>::empty());
    match e {
        EditView::Insert { text, .. } => {
            crate::text::lemma_bytes_concat(t, text);
            assert(bt.take(bt.len() as int) + bytes_of(text) + bt.skip(bt.len() as int)
                =~= bytes_of(t + text));
            assert(apply_op(bt, e) == Some(bytes_of(t + text)));
            assert(apply_ops(bt, seq![e]) == apply_ops(bytes_of(t + text), seq![e].drop_last()));
            assert(decode_utf8(bytes_of(t + text)) == t + text);
        },
        EditView::Delete { .. } => {
            assert(apply_op(bt, e) == Some(bt));
            assert(apply_ops(bt, seq![e]) == apply_ops(bt, seq![e].drop_last()));
            assert(decode_utf8(bt) == t);
        },
        EditView::Replace { new_text, .. } => {
            crate::text::lemma_bytes_concat(t, new_text);
            assert(bt.take(bt.len() as int) + bytes_of(new_text) + bt.skip(bt.len() as int)
                =~= bytes_of(t + new_text));
            assert(apply_op(bt, e) == Some(bytes_of(t + new_text)));
            assert(apply_ops(bt, seq![e]) == apply_ops(
                bytes_of(t + new_text),
                seq![e].drop_last(),
            ));
            assert(decode_utf8(bytes_of(t + new_text)) == t + new_text);
        },
    }
}

} // verus!
