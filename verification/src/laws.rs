//! What holds of every header, proved from the description of the format.

use crate::error::DecodeError;
use crate::format::{
    flag_set, lemma_extra_within, lemma_text_by_terminator, lemma_text_within,
    no_optional_section, parse_extra, parse_header, parse_optional_crc, parse_optional_extra,
    parse_optional_text, parse_subfields, parse_text, HeaderModel, FCOMMENT, FEXTRA, FIXED_LEN,
    FNAME, ID1, ID2, SUBFIELD_HEAD_LEN,
};
use crate::reader::{le_u16, le_u32};
use vstd::prelude::*;

verus! {

/// A header whose flags announce no optional section is its fixed prefix:
/// wherever at least ten bytes start with the signature, it decodes, its
/// optional parts are absent, no subfield is counted, and it occupies ten
/// bytes exactly.
pub proof fn lemma_plain_header(s: Seq<u8>)
    requires
        s.len() >= FIXED_LEN,
        s[0] == ID1,
        s[1] == ID2,
        no_optional_section(s[3]),
    ensures
        parse_header(s) == Ok::<(HeaderModel, nat), DecodeError>(
            (
                HeaderModel {
                    method: s[2],
                    flags: s[3],
                    mtime: le_u32(s.skip(4)),
                    extra_flags: s[8],
                    os: s[9],
                    extra_subfield_count: 0,
                    name: None,
                    comment: None,
                    header_crc: None,
                },
                FIXED_LEN as nat,
            ),
        ),
{
}

/// The signature is judged before anything else: with fewer than two bytes
/// the header is truncated, and with two bytes that are not the signature
/// it is a magic mismatch, whatever follows them or fails to follow.
pub proof fn lemma_signature_first(s: Seq<u8>)
    ensures
        s.len() < 2 ==> parse_header(s) == Err::<(HeaderModel, nat), DecodeError>(
            DecodeError::TruncatedHeader,
        ),
        s.len() >= 2 && (s[0] != ID1 || s[1] != ID2) ==> parse_header(s) == Err::<
            (HeaderModel, nat),
            DecodeError,
        >(DecodeError::MagicMismatch),
        parse_header(s) == Err::<(HeaderModel, nat), DecodeError>(DecodeError::MagicMismatch)
            ==> s.len() >= 2 && (s[0] != ID1 || s[1] != ID2),
{
    if s.len() >= FIXED_LEN && s[0] == ID1 && s[1] == ID2 {
        lemma_sections_never_mismatch(s);
    }
}

/// No optional section fails with a magic mismatch.
proof fn lemma_sections_never_mismatch(s: Seq<u8>)
    requires
        s.len() >= FIXED_LEN,
        s[0] == ID1,
        s[1] == ID2,
    ensures
        parse_header(s) != Err::<(HeaderModel, nat), DecodeError>(DecodeError::MagicMismatch),
{
    let after_fixed = s.skip(FIXED_LEN as int);
    lemma_subfields_never_mismatch(after_fixed.skip(2), le_u16(after_fixed) as nat);
}

/// A subfield list fails as truncated or malformed, and in no other way.
proof fn lemma_subfields_never_mismatch(s: Seq<u8>, budget: nat)
    ensures
        parse_subfields(s, budget) matches Err(e) ==> e == DecodeError::TruncatedHeader || e
            == DecodeError::MalformedExtra,
    decreases budget,
{
    if budget >= SUBFIELD_HEAD_LEN && s.len() >= SUBFIELD_HEAD_LEN {
        let subfield_len = SUBFIELD_HEAD_LEN + le_u16(s.skip(2)) as nat;
        if subfield_len <= budget && subfield_len <= s.len() {
            lemma_subfields_never_mismatch(
                s.skip(subfield_len as int),
                (budget - subfield_len) as nat,
            );
        }
    }
}

/// Every header that decodes is consistent: its optional parts are present
/// exactly when its flags announce them. It occupies at least its fixed
/// prefix and no more bytes than there are.
pub proof fn lemma_header_consistent(s: Seq<u8>)
    ensures
        parse_header(s) matches Ok((header, len)) ==> {
            &&& header.consistent()
            &&& header.flags == s[3]
            &&& FIXED_LEN <= len <= s.len()
        },
{
    if s.len() >= FIXED_LEN {
        let flags = s[3];
        let after_fixed = s.skip(FIXED_LEN as int);
        lemma_extra_within(after_fixed);
        if let Ok((_, extra_len)) = parse_optional_extra(flags, after_fixed) {
            let after_extra = after_fixed.skip(extra_len as int);
            lemma_text_within(after_extra);
            if let Ok((_, name_len)) = parse_optional_text(flags, FNAME, after_extra) {
                let after_name = after_extra.skip(name_len as int);
                lemma_text_within(after_name);
            }
        }
    }
}

/// An extra field that declares four bytes and holds one subfield with an
/// empty payload decodes to one subfield and occupies six bytes, whatever
/// the tag of the subfield and whatever follows the field.
pub proof fn lemma_single_empty_subfield(s: Seq<u8>)
    requires
        s.len() >= 6,
        le_u16(s) == 4,
        le_u16(s.skip(4)) == 0,
    ensures
        parse_extra(s) == Ok::<(nat, nat), DecodeError>((1, 6)),
{
    let list = s.skip(2);
    assert(parse_subfields(list.skip(4), 0) == Ok::<nat, DecodeError>(0));
}

/// A subfield list with one to three bytes left to its budget is malformed,
/// whatever bytes follow.
pub proof fn lemma_short_budget_is_malformed(s: Seq<u8>, budget: nat)
    requires
        0 < budget < SUBFIELD_HEAD_LEN,
    ensures
        parse_subfields(s, budget) == Err::<nat, DecodeError>(DecodeError::MalformedExtra),
{
}

/// A subfield whose declared payload reaches past the budget makes the
/// list malformed, whether or not that payload is there to be read.
pub proof fn lemma_overrun_is_malformed(s: Seq<u8>, budget: nat)
    requires
        budget >= SUBFIELD_HEAD_LEN,
        s.len() >= SUBFIELD_HEAD_LEN,
        SUBFIELD_HEAD_LEN + le_u16(s.skip(2)) > budget,
    ensures
        parse_subfields(s, budget) == Err::<nat, DecodeError>(DecodeError::MalformedExtra),
{
}

/// Whether `a` and `b` are at least `n` long and agree on their first `n`
/// bytes.
pub open spec fn same_prefix(a: Seq<u8>, b: Seq<u8>, n: nat) -> bool {
    &&& n <= a.len()
    &&& n <= b.len()
    &&& forall|i: int| 0 <= i < n ==> a[i] == b[i]
}

/// Inputs that agree on a prefix still agree, on what is left of it, once
/// the same number of bytes is dropped from both.
pub proof fn lemma_same_prefix_skip(a: Seq<u8>, b: Seq<u8>, n: nat, k: nat)
    requires
        same_prefix(a, b, n),
        k <= n,
    ensures
        same_prefix(a.skip(k as int), b.skip(k as int), (n - k) as nat),
{
    let a_rest = a.skip(k as int);
    let b_rest = b.skip(k as int);
    assert forall|i: int| 0 <= i < n - k implies a_rest[i] == b_rest[i] by {
        assert(a_rest[i] == a[k + i]);
        assert(b_rest[i] == b[k + i]);
    }
}

/// A subfield list is decided by the bytes inside its budget.
pub proof fn lemma_subfields_decided_by_budget(a: Seq<u8>, b: Seq<u8>, budget: nat)
    requires
        parse_subfields(a, budget) is Ok,
        same_prefix(a, b, budget),
    ensures
        parse_subfields(b, budget) == parse_subfields(a, budget),
    decreases budget,
{
    if budget >= SUBFIELD_HEAD_LEN {
        let subfield_len = SUBFIELD_HEAD_LEN + le_u16(a.skip(2)) as nat;
        lemma_same_prefix_skip(a, b, budget, subfield_len as nat);
        lemma_subfields_decided_by_budget(
            a.skip(subfield_len as int),
            b.skip(subfield_len as int),
            (budget - subfield_len) as nat,
        );
    }
}

/// An extra field is decided by its own bytes.
pub proof fn lemma_extra_decided_by_own_bytes(a: Seq<u8>, b: Seq<u8>)
    requires
        parse_extra(a) matches Ok((_, len)) && same_prefix(a, b, len),
    ensures
        parse_extra(b) == parse_extra(a),
{
    lemma_extra_within(a);
    let budget = le_u16(a) as nat;
    lemma_same_prefix_skip(a, b, 2 + budget, 2);
    lemma_subfields_decided_by_budget(a.skip(2), b.skip(2), budget);
}

/// A text field is decided by its own bytes.
pub proof fn lemma_text_decided_by_own_bytes(a: Seq<u8>, b: Seq<u8>)
    requires
        parse_text(a) matches Ok((_, len)) && same_prefix(a, b, len),
    ensures
        parse_text(b) == parse_text(a),
{
    lemma_text_within(a);
    let end = parse_text(a)->Ok_0.1 - 1;
    assert(b.take(end) == a.take(end));
    lemma_text_by_terminator(a, end);
    lemma_text_by_terminator(b, end);
}

/// A header is decided by its own bytes: two inputs that agree on the
/// bytes that a header occupies in one of them hold the same header, and
/// it occupies the same bytes in both. What follows a header has no part
/// in decoding it.
pub proof fn lemma_header_decided_by_own_bytes(a: Seq<u8>, b: Seq<u8>)
    requires
        parse_header(a) matches Ok((_, len)) && same_prefix(a, b, len),
    ensures
        parse_header(b) == parse_header(a),
{
    lemma_header_consistent(a);
    let flags = a[3];
    let len = parse_header(a)->Ok_0.1;

    let a1 = a.skip(FIXED_LEN as int);
    let b1 = b.skip(FIXED_LEN as int);
    let len1 = (len - FIXED_LEN) as nat;
    lemma_same_prefix_skip(a, b, len, FIXED_LEN as nat);
    lemma_extra_within(a1);
    let extra_len = parse_optional_extra(flags, a1)->Ok_0.1;
    assert(parse_optional_extra(flags, b1) == parse_optional_extra(flags, a1)) by {
        if flag_set(flags, FEXTRA) {
            lemma_extra_decided_by_own_bytes(a1, b1);
        }
    }

    let a2 = a1.skip(extra_len as int);
    let b2 = b1.skip(extra_len as int);
    let len2 = (len1 - extra_len) as nat;
    lemma_same_prefix_skip(a1, b1, len1, extra_len);
    lemma_text_within(a2);
    let name_len = parse_optional_text(flags, FNAME, a2)->Ok_0.1;
    assert(parse_optional_text(flags, FNAME, b2) == parse_optional_text(flags, FNAME, a2)) by {
        if flag_set(flags, FNAME) {
            lemma_text_decided_by_own_bytes(a2, b2);
        }
    }

    let a3 = a2.skip(name_len as int);
    let b3 = b2.skip(name_len as int);
    let len3 = (len2 - name_len) as nat;
    lemma_same_prefix_skip(a2, b2, len2, name_len);
    lemma_text_within(a3);
    let comment_len = parse_optional_text(flags, FCOMMENT, a3)->Ok_0.1;
    assert(parse_optional_text(flags, FCOMMENT, b3) == parse_optional_text(flags, FCOMMENT, a3))
        by {
        if flag_set(flags, FCOMMENT) {
            lemma_text_decided_by_own_bytes(a3, b3);
        }
    }

    let a4 = a3.skip(comment_len as int);
    let b4 = b3.skip(comment_len as int);
    lemma_same_prefix_skip(a3, b3, len3, comment_len);
    assert(parse_optional_crc(flags, b4) == parse_optional_crc(flags, a4));
}

} // verus!
