//! The round-trip law: decoding an encoded list gives the list back.
//!
//! The proof walks the reader over the writer's output: escaped text reads
//! back to the original characters, printed numbers read back to their
//! values, each printed child element is taken by exactly its own branch of
//! the reader, and the typed conversions invert each other.
use vstd::prelude::*;

use crate::codec::{
    esc_char, escape, opt_i8_elem, opt_text_elem, opt_u64_elem, print_document, print_item_body,
    print_items, print_serde_item, spec_encode, text_elem, xml_header,
};
use crate::errors::DecodeErrorView;
use crate::numbers::{
    dec_digits, dec_i8, is_digit, lemma_parse_i8_dec, lemma_parse_u64_dec, spec_parse_i8,
    spec_parse_u64_loop,
};
use crate::parse::{
    chars_at, empty_draft, finish_draft, lemma_chars_at_differs, skip_decl, skip_ws, spec_decode,
    spec_parse_children, spec_parse_document, spec_parse_items, spec_parse_text, DraftView,
};
use crate::wanted::{
    lemma_items_codec_roundtrip, spec_serde_items, ItemView, SerdeItemView,
};

verus! {

/// Escaped text reads back to exactly the text, stopping at the tag that
/// follows it.
proof fn lemma_parse_text_of_escape(s: Seq<char>, pos: int, t: Seq<char>, acc: Seq<char>)
    requires
        chars_at(s, pos, escape(t)),
        pos + escape(t).len() < s.len(),
        s[pos + escape(t).len()] == '<',
    ensures
        spec_parse_text(s, pos, acc) == Ok::<(Seq<char>, int), DecodeErrorView>(
            (acc + t, pos + escape(t).len()),
        ),
    decreases t.len(),
{
    if t.len() == 0 {
        assert(escape(t).len() == 0);
        assert(s[pos] == '<');
        assert(acc + t =~= acc);
    } else {
        let c = t[0];
        let rest = t.skip(1);
        let e = esc_char(c);
        assert(escape(t) == e + escape(rest));
        let el = e.len();
        assert forall|j: int| 0 <= j < el implies s[pos + j] == #[trigger] e[j] by {
            assert(s[pos + j] == escape(t)[j]);
            assert(escape(t)[j] == e[j]);
        }
        assert(chars_at(s, pos + el, escape(rest))) by {
            assert forall|j: int|
                0 <= j < escape(rest).len() implies s[pos + el + j] == #[trigger] escape(
                rest,
            )[j] by {
                assert(s[pos + el + j] == escape(t)[el + j]);
                assert(escape(t)[el + j] == escape(rest)[j]);
            }
        }
        lemma_parse_text_of_escape(s, pos + el, rest, acc.push(c));
        assert(acc.push(c) + rest =~= acc + t);
        if c == '&' {
            assert(s[pos] == '&' && s[pos + 1] == 'a' && s[pos + 2] == 'm' && s[pos + 3] == 'p'
                && s[pos + 4] == ';');
        } else if c == '<' {
            assert(s[pos] == '&' && s[pos + 1] == 'l' && s[pos + 2] == 't' && s[pos + 3] == ';');
        } else if c == '>' {
            assert(s[pos] == '&' && s[pos + 1] == 'g' && s[pos + 2] == 't' && s[pos + 3] == ';');
        } else if c == '"' {
            assert(s[pos] == '&' && s[pos + 1] == 'q' && s[pos + 2] == 'u' && s[pos + 3] == 'o'
                && s[pos + 4] == 't' && s[pos + 5] == ';');
        } else if c == '\'' {
            assert(s[pos] == '&' && s[pos + 1] == 'a' && s[pos + 2] == 'p' && s[pos + 3] == 'o'
                && s[pos + 4] == 's' && s[pos + 5] == ';');
        } else {
            assert(e[0] == c);
            assert(s[pos + 0] == e[0]);
            assert(s[pos] == c);
        }
    }
}

/// Splitting a matched concatenation splits the match.
proof fn lemma_chars_at_split(s: Seq<char>, pos: int, x: Seq<char>, y: Seq<char>)
    requires
        chars_at(s, pos, x + y),
    ensures
        chars_at(s, pos, x),
        chars_at(s, pos + x.len(), y),
{
    assert forall|j: int| 0 <= j < x.len() implies s[pos + j] == #[trigger] x[j] by {
        assert(s[pos + j] == (x + y)[j]);
        assert((x + y)[j] == x[j]);
    }
    assert forall|j: int| 0 <= j < y.len() implies s[pos + x.len() + j] == #[trigger] y[j] by {
        assert(s[pos + (x.len() + j)] == (x + y)[x.len() + j]);
        assert((x + y)[x.len() + j] == y[j]);
    }
}

/// A printed text element reads back: the open tag stands first, the text
/// reads to the content, and the close tag follows.
proof fn lemma_text_elem_at(s: Seq<char>, pos: int, open: Seq<char>, content: Seq<char>, close: Seq<char>)
    requires
        chars_at(s, pos, text_elem(open, content, close)),
        open.len() >= 1,
        close.len() >= 1,
        close[0] == '<',
    ensures
        chars_at(s, pos, open),
        spec_parse_text(s, pos + open.len(), Seq::empty()) == Ok::<
            (Seq<char>, int),
            DecodeErrorView,
        >((content, pos + open.len() + escape(content).len())),
        chars_at(s, pos + open.len() + escape(content).len(), close),
{
    assert(text_elem(open, content, close) == (open + escape(content)) + close);
    lemma_chars_at_split(s, pos, open + escape(content), close);
    lemma_chars_at_split(s, pos, open, escape(content));
    let a = pos + open.len();
    let b = a + escape(content).len();
    assert(s[b + 0] == close[0]);
    assert(b < s.len());
    lemma_parse_text_of_escape(s, a, content, Seq::empty());
    assert(Seq::<char>::empty() + content =~= content);
}

/// A printed unsigned numeric element reads back.
proof fn lemma_u64_elem_at(s: Seq<char>, pos: int, open: Seq<char>, n: u64, close: Seq<char>)
    requires
        chars_at(s, pos, open + dec_digits(n as nat) + close),
        open.len() >= 1,
        close.len() >= 1,
        close[0] == '<',
    ensures
        chars_at(s, pos, open),
        spec_parse_u64_loop(s, pos + open.len(), 0, false) == Some(
            (n, pos + open.len() + dec_digits(n as nat).len()),
        ),
        chars_at(s, pos + open.len() + dec_digits(n as nat).len(), close),
{
    let dd = dec_digits(n as nat);
    assert(open + dd + close == (open + dd) + close);
    lemma_chars_at_split(s, pos, open + dd, close);
    lemma_chars_at_split(s, pos, open, dd);
    let a = pos + open.len();
    let b = a + dd.len();
    assert(s.subrange(a, a + dd.len()) =~= dd) by {
        assert forall|j: int|
            0 <= j < dd.len() implies s.subrange(a, a + dd.len())[j] == #[trigger] dd[j] by {
            assert(s.subrange(a, a + dd.len())[j] == s[a + j]);
            assert(s[a + j] == dd[j]);
        }
    }
    assert(s[b + 0] == close[0]);
    assert(!is_digit('<'));
    crate::numbers::lemma_parse_u64_dec(s, a, n);
}

/// A printed color element reads back.
proof fn lemma_i8_elem_at(s: Seq<char>, pos: int, open: Seq<char>, v: i8, close: Seq<char>)
    requires
        chars_at(s, pos, open + dec_i8(v) + close),
        open.len() >= 1,
        close.len() >= 1,
        close[0] == '<',
    ensures
        chars_at(s, pos, open),
        spec_parse_i8(s, pos + open.len()) == Some((v, pos + open.len() + dec_i8(v).len())),
        chars_at(s, pos + open.len() + dec_i8(v).len(), close),
{
    let dd = dec_i8(v);
    assert(open + dd + close == (open + dd) + close);
    lemma_chars_at_split(s, pos, open + dd, close);
    lemma_chars_at_split(s, pos, open, dd);
    let a = pos + open.len();
    let b = a + dd.len();
    assert(s.subrange(a, a + dd.len()) =~= dd) by {
        assert forall|j: int|
            0 <= j < dd.len() implies s.subrange(a, a + dd.len())[j] == #[trigger] dd[j] by {
            assert(s.subrange(a, a + dd.len())[j] == s[a + j]);
            assert(s[a + j] == dd[j]);
        }
    }
    assert(s[b + 0] == close[0]);
    assert(!is_digit('<'));
    crate::numbers::lemma_parse_i8_dec(s, a, v);
}


/// The printed children of the first six fields, in order.
spec fn body_a(sv: SerdeItemView) -> Seq<char> {
    text_elem("<ITEMTYPE>"@, sv.item_type, "</ITEMTYPE>"@) + text_elem(
        "<ITEMID>"@,
        sv.item_id,
        "</ITEMID>"@,
    ) + opt_i8_elem("<COLOR>"@, sv.color, "</COLOR>"@) + opt_text_elem(
        "<MAXPRICE>"@,
        sv.max_price,
        "</MAXPRICE>"@,
    ) + opt_u64_elem("<MINQTY>"@, sv.min_qty, "</MINQTY>"@) + opt_u64_elem(
        "<QTYFILLED>"@,
        sv.qty_filled,
        "</QTYFILLED>"@,
    )
}

/// The printed children of the last five fields, with the record's close.
spec fn body_b(sv: SerdeItemView) -> Seq<char> {
    opt_text_elem("<CONDITION>"@, sv.condition, "</CONDITION>"@) + opt_text_elem(
        "<REMARKS>"@,
        sv.remarks,
        "</REMARKS>"@,
    ) + opt_text_elem("<NOTIFY>"@, sv.notify, "</NOTIFY>"@) + opt_text_elem(
        "<WANTEDSHOW>"@,
        sv.wanted_show,
        "</WANTEDSHOW>"@,
    ) + opt_text_elem("<WANTEDLISTID>"@, sv.wanted_list_id, "</WANTEDLISTID>"@) + "</ITEM>"@
}

/// The reader's state after the first six fields.
spec fn draft_mid(sv: SerdeItemView) -> DraftView {
    DraftView {
        item_type: Some(sv.item_type),
        item_id: Some(sv.item_id),
        color: sv.color,
        max_price: sv.max_price,
        min_qty: sv.min_qty,
        qty_filled: sv.qty_filled,
        condition: None,
        remarks: None,
        notify: None,
        wanted_show: None,
        wanted_list_id: None,
    }
}

/// The record body is the two halves, one after the other.
proof fn lemma_body_parts(sv: SerdeItemView)
    ensures
        print_item_body(sv) == body_a(sv) + body_b(sv),
{
    let g2 = text_elem("<ITEMTYPE>"@, sv.item_type, "</ITEMTYPE>"@);
    let g3 = text_elem("<ITEMID>"@, sv.item_id, "</ITEMID>"@);
    let g4 = opt_i8_elem("<COLOR>"@, sv.color, "</COLOR>"@);
    let g5 = opt_text_elem("<MAXPRICE>"@, sv.max_price, "</MAXPRICE>"@);
    let g6 = opt_u64_elem("<MINQTY>"@, sv.min_qty, "</MINQTY>"@);
    let g7 = opt_u64_elem("<QTYFILLED>"@, sv.qty_filled, "</QTYFILLED>"@);
    let g8 = opt_text_elem("<CONDITION>"@, sv.condition, "</CONDITION>"@);
    let g9 = opt_text_elem("<REMARKS>"@, sv.remarks, "</REMARKS>"@);
    let g10 = opt_text_elem("<NOTIFY>"@, sv.notify, "</NOTIFY>"@);
    let g11 = opt_text_elem("<WANTEDSHOW>"@, sv.wanted_show, "</WANTEDSHOW>"@);
    let g12 = opt_text_elem("<WANTEDLISTID>"@, sv.wanted_list_id, "</WANTEDLISTID>"@);
    let s13v = "</ITEM>"@;
    let a = body_a(sv);
    let b8 = g8;
    let b9 = b8 + g9;
    let b10 = b9 + g10;
    let b11 = b10 + g11;
    let b12 = b11 + g12;
    let b13 = b12 + s13v;
    assert(a + b9 =~= (a + b8) + g9);
    assert(a + b10 =~= (a + b9) + g10);
    assert(a + b11 =~= (a + b10) + g11);
    assert(a + b12 =~= (a + b11) + g12);
    assert(a + b13 =~= (a + b12) + s13v);
    assert(body_b(sv) == b13);
    assert(print_item_body(sv) == ((((a + g8) + g9) + g10) + g11) + g12 + s13v);
}

/// Reading the first six printed fields drives the reader to the mid draft.
#[verifier::rlimit(100)]
#[verifier::spinoff_prover]
proof fn lemma_children_first(s: Seq<char>, pos: int, sv: SerdeItemView)
    requires
        chars_at(s, pos, body_a(sv)),
    ensures
        spec_parse_children(s, pos, empty_draft()) == spec_parse_children(s, pos + body_a(sv).len(), draft_mid(sv)),
{
    reveal_strlit("</COLOR>");
    reveal_strlit("</ITEM>");
    reveal_strlit("</ITEMID>");
    reveal_strlit("</ITEMTYPE>");
    reveal_strlit("</MAXPRICE>");
    reveal_strlit("</MINQTY>");
    reveal_strlit("</QTYFILLED>");
    reveal_strlit("<COLOR>");
    reveal_strlit("<ITEMID>");
    reveal_strlit("<ITEMTYPE>");
    reveal_strlit("<MAXPRICE>");
    reveal_strlit("<MINQTY>");
    reveal_strlit("<QTYFILLED>");
    let part = body_a(sv);
    let g2 = text_elem("<ITEMTYPE>"@, sv.item_type, "</ITEMTYPE>"@);
    let g3 = text_elem("<ITEMID>"@, sv.item_id, "</ITEMID>"@);
    let g4 = opt_i8_elem("<COLOR>"@, sv.color, "</COLOR>"@);
    let g5 = opt_text_elem("<MAXPRICE>"@, sv.max_price, "</MAXPRICE>"@);
    let g6 = opt_u64_elem("<MINQTY>"@, sv.min_qty, "</MINQTY>"@);
    let g7 = opt_u64_elem("<QTYFILLED>"@, sv.qty_filled, "</QTYFILLED>"@);
    let c2 = g2;
    let c3 = c2 + g3;
    let c4 = c3 + g4;
    let c5 = c4 + g5;
    let c6 = c5 + g6;
    let c7 = c6 + g7;
    assert(part == c7);
    assert(c7 == c6 + g7);
    lemma_chars_at_split(s, pos, c6, g7);
    assert(c6 == c5 + g6);
    lemma_chars_at_split(s, pos, c5, g6);
    assert(c5 == c4 + g5);
    lemma_chars_at_split(s, pos, c4, g5);
    assert(c4 == c3 + g4);
    lemma_chars_at_split(s, pos, c3, g4);
    assert(c3 == c2 + g3);
    lemma_chars_at_split(s, pos, c2, g3);
    let q2 = pos;
    let q3 = q2 + g2.len();
    let q4 = q3 + g3.len();
    let q5 = q4 + g4.len();
    let q6 = q5 + g5.len();
    let q7 = q6 + g6.len();
    let qlast = q7 + g7.len();
    assert(q3 == pos + c2.len());
    assert(q4 == pos + c3.len());
    assert(q5 == pos + c4.len());
    assert(q6 == pos + c5.len());
    assert(q7 == pos + c6.len());
    assert(qlast == pos + c7.len());
    let d2 = empty_draft();
    let d3 = DraftView { item_type: Some(sv.item_type), ..d2 };
    let d4 = DraftView { item_id: Some(sv.item_id), ..d3 };
    let d5 = DraftView { color: sv.color, ..d4 };
    let d6 = DraftView { max_price: sv.max_price, ..d5 };
    let d7 = DraftView { min_qty: sv.min_qty, ..d6 };
    let d8 = DraftView { qty_filled: sv.qty_filled, ..d7 };
    assert(d8 =~= draft_mid(sv));
    {
        lemma_text_elem_at(s, q2, "<ITEMTYPE>"@, sv.item_type, "</ITEMTYPE>"@);
        assert(s[q2 + 0] == "<ITEMTYPE>"@[0]);
        assert(skip_ws(s, q2) == q2);
        assert(s[q2 + 1] == "<ITEMTYPE>"@[1]);
        lemma_chars_at_differs(s, q2, "</ITEM>"@, 1);
        let qt = q2 + 10 + escape(sv.item_type).len();
        assert(chars_at(s, qt, "</ITEMTYPE>"@));
        assert((DraftView { item_type: Some(sv.item_type), ..d2 }) =~= d3);
        assert(spec_parse_children(s, q2, d2) == spec_parse_children(s, qt + 11, d3));
        assert(qt + 11 == q3);
    }
    {
        lemma_text_elem_at(s, q3, "<ITEMID>"@, sv.item_id, "</ITEMID>"@);
        assert(s[q3 + 0] == "<ITEMID>"@[0]);
        assert(skip_ws(s, q3) == q3);
        assert(s[q3 + 1] == "<ITEMID>"@[1]);
        lemma_chars_at_differs(s, q3, "</ITEM>"@, 1);
        assert(s[q3 + 5] == "<ITEMID>"@[5]);
        lemma_chars_at_differs(s, q3, "<ITEMTYPE>"@, 5);
        let qt = q3 + 8 + escape(sv.item_id).len();
        assert(chars_at(s, qt, "</ITEMID>"@));
        assert((DraftView { item_id: Some(sv.item_id), ..d3 }) =~= d4);
        assert(spec_parse_children(s, q3, d3) == spec_parse_children(s, qt + 9, d4));
        assert(qt + 9 == q4);
    }
    match sv.color {
        None => {
            assert(g4.len() == 0);
            assert(q5 == q4);
            assert(d5 =~= d4);
        },
        Some(vn) => {
            assert(g4 == "<COLOR>"@ + dec_i8(vn) + "</COLOR>"@);
            lemma_i8_elem_at(s, q4, "<COLOR>"@, vn, "</COLOR>"@);
            assert(s[q4 + 0] == "<COLOR>"@[0]);
            assert(skip_ws(s, q4) == q4);
            assert(s[q4 + 1] == "<COLOR>"@[1]);
            lemma_chars_at_differs(s, q4, "</ITEM>"@, 1);
            assert(s[q4 + 1] == "<COLOR>"@[1]);
            lemma_chars_at_differs(s, q4, "<ITEMTYPE>"@, 1);
            assert(s[q4 + 1] == "<COLOR>"@[1]);
            lemma_chars_at_differs(s, q4, "<ITEMID>"@, 1);
            let qt = q4 + 7 + dec_i8(vn).len();
            assert(chars_at(s, qt, "</COLOR>"@));
            assert((DraftView { color: Some(vn), ..d4 }) =~= d5);
            assert(spec_parse_children(s, q4, d4) == spec_parse_children(s, qt + 8, d5));
            assert(qt + 8 == q5);
        },
    }
    match sv.max_price {
        None => {
            assert(g5.len() == 0);
            assert(q6 == q5);
            assert(d6 =~= d5);
        },
        Some(tv) => {
            assert(g5 == text_elem("<MAXPRICE>"@, tv, "</MAXPRICE>"@));
            lemma_text_elem_at(s, q5, "<MAXPRICE>"@, tv, "</MAXPRICE>"@);
            assert(s[q5 + 0] == "<MAXPRICE>"@[0]);
            assert(skip_ws(s, q5) == q5);
            assert(s[q5 + 1] == "<MAXPRICE>"@[1]);
            lemma_chars_at_differs(s, q5, "</ITEM>"@, 1);
            assert(s[q5 + 1] == "<MAXPRICE>"@[1]);
            lemma_chars_at_differs(s, q5, "<ITEMTYPE>"@, 1);
            assert(s[q5 + 1] == "<MAXPRICE>"@[1]);
            lemma_chars_at_differs(s, q5, "<ITEMID>"@, 1);
            assert(s[q5 + 1] == "<MAXPRICE>"@[1]);
            lemma_chars_at_differs(s, q5, "<COLOR>"@, 1);
            let qt = q5 + 10 + escape(tv).len();
            assert(chars_at(s, qt, "</MAXPRICE>"@));
            assert((DraftView { max_price: Some(tv), ..d5 }) =~= d6);
            assert(spec_parse_children(s, q5, d5) == spec_parse_children(s, qt + 11, d6));
            assert(qt + 11 == q6);
        },
    }
    match sv.min_qty {
        None => {
            assert(g6.len() == 0);
            assert(q7 == q6);
            assert(d7 =~= d6);
        },
        Some(vn) => {
            assert(g6 == "<MINQTY>"@ + dec_digits(vn as nat) + "</MINQTY>"@);
            lemma_u64_elem_at(s, q6, "<MINQTY>"@, vn, "</MINQTY>"@);
            assert(s[q6 + 0] == "<MINQTY>"@[0]);
            assert(skip_ws(s, q6) == q6);
            assert(s[q6 + 1] == "<MINQTY>"@[1]);
            lemma_chars_at_differs(s, q6, "</ITEM>"@, 1);
            assert(s[q6 + 1] == "<MINQTY>"@[1]);
            lemma_chars_at_differs(s, q6, "<ITEMTYPE>"@, 1);
            assert(s[q6 + 1] == "<MINQTY>"@[1]);
            lemma_chars_at_differs(s, q6, "<ITEMID>"@, 1);
            assert(s[q6 + 1] == "<MINQTY>"@[1]);
            lemma_chars_at_differs(s, q6, "<COLOR>"@, 1);
            assert(s[q6 + 2] == "<MINQTY>"@[2]);
            lemma_chars_at_differs(s, q6, "<MAXPRICE>"@, 2);
            let qt = q6 + 8 + dec_digits(vn as nat).len();
            assert(chars_at(s, qt, "</MINQTY>"@));
            assert((DraftView { min_qty: Some(vn), ..d6 }) =~= d7);
            assert(spec_parse_children(s, q6, d6) == spec_parse_children(s, qt + 9, d7));
            assert(qt + 9 == q7);
        },
    }
    match sv.qty_filled {
        None => {
            assert(g7.len() == 0);
            assert(qlast == q7);
            assert(d8 =~= d7);
        },
        Some(vn) => {
            assert(g7 == "<QTYFILLED>"@ + dec_digits(vn as nat) + "</QTYFILLED>"@);
            lemma_u64_elem_at(s, q7, "<QTYFILLED>"@, vn, "</QTYFILLED>"@);
            assert(s[q7 + 0] == "<QTYFILLED>"@[0]);
            assert(skip_ws(s, q7) == q7);
            assert(s[q7 + 1] == "<QTYFILLED>"@[1]);
            lemma_chars_at_differs(s, q7, "</ITEM>"@, 1);
            assert(s[q7 + 1] == "<QTYFILLED>"@[1]);
            lemma_chars_at_differs(s, q7, "<ITEMTYPE>"@, 1);
            assert(s[q7 + 1] == "<QTYFILLED>"@[1]);
            lemma_chars_at_differs(s, q7, "<ITEMID>"@, 1);
            assert(s[q7 + 1] == "<QTYFILLED>"@[1]);
            lemma_chars_at_differs(s, q7, "<COLOR>"@, 1);
            assert(s[q7 + 1] == "<QTYFILLED>"@[1]);
            lemma_chars_at_differs(s, q7, "<MAXPRICE>"@, 1);
            assert(s[q7 + 1] == "<QTYFILLED>"@[1]);
            lemma_chars_at_differs(s, q7, "<MINQTY>"@, 1);
            let qt = q7 + 11 + dec_digits(vn as nat).len();
            assert(chars_at(s, qt, "</QTYFILLED>"@));
            assert((DraftView { qty_filled: Some(vn), ..d7 }) =~= d8);
            assert(spec_parse_children(s, q7, d7) == spec_parse_children(s, qt + 12, d8));
            assert(qt + 12 == qlast);
        },
    }
}

/// Reading the last five printed fields and the close yields the record.
#[verifier::rlimit(100)]
#[verifier::spinoff_prover]
proof fn lemma_children_second(s: Seq<char>, pos: int, sv: SerdeItemView)
    requires
        chars_at(s, pos, body_b(sv)),
    ensures
        spec_parse_children(s, pos, draft_mid(sv)) == Ok::<(SerdeItemView, int), DecodeErrorView>((sv, pos + body_b(sv).len())),
{
    reveal_strlit("</CONDITION>");
    reveal_strlit("</ITEM>");
    reveal_strlit("</NOTIFY>");
    reveal_strlit("</REMARKS>");
    reveal_strlit("</WANTEDLISTID>");
    reveal_strlit("</WANTEDSHOW>");
    reveal_strlit("<COLOR>");
    reveal_strlit("<CONDITION>");
    reveal_strlit("<ITEMID>");
    reveal_strlit("<ITEMTYPE>");
    reveal_strlit("<MAXPRICE>");
    reveal_strlit("<MINQTY>");
    reveal_strlit("<NOTIFY>");
    reveal_strlit("<QTYFILLED>");
    reveal_strlit("<REMARKS>");
    reveal_strlit("<WANTEDLISTID>");
    reveal_strlit("<WANTEDSHOW>");
    let part = body_b(sv);
    let g8 = opt_text_elem("<CONDITION>"@, sv.condition, "</CONDITION>"@);
    let g9 = opt_text_elem("<REMARKS>"@, sv.remarks, "</REMARKS>"@);
    let g10 = opt_text_elem("<NOTIFY>"@, sv.notify, "</NOTIFY>"@);
    let g11 = opt_text_elem("<WANTEDSHOW>"@, sv.wanted_show, "</WANTEDSHOW>"@);
    let g12 = opt_text_elem("<WANTEDLISTID>"@, sv.wanted_list_id, "</WANTEDLISTID>"@);
    let c8 = g8;
    let c9 = c8 + g9;
    let c10 = c9 + g10;
    let c11 = c10 + g11;
    let c12 = c11 + g12;
    let s13v = "</ITEM>"@;
    assert(part == c12 + s13v);
    lemma_chars_at_split(s, pos, c12, s13v);
    assert(c12 == c11 + g12);
    lemma_chars_at_split(s, pos, c11, g12);
    assert(c11 == c10 + g11);
    lemma_chars_at_split(s, pos, c10, g11);
    assert(c10 == c9 + g10);
    lemma_chars_at_split(s, pos, c9, g10);
    assert(c9 == c8 + g9);
    lemma_chars_at_split(s, pos, c8, g9);
    let q8 = pos;
    let q9 = q8 + g8.len();
    let q10 = q9 + g9.len();
    let q11 = q10 + g10.len();
    let q12 = q11 + g11.len();
    let qlast = q12 + g12.len();
    assert(q9 == pos + c8.len());
    assert(q10 == pos + c9.len());
    assert(q11 == pos + c10.len());
    assert(q12 == pos + c11.len());
    assert(qlast == pos + c12.len());
    let d8 = draft_mid(sv);
    let d9 = DraftView { condition: sv.condition, ..d8 };
    let d10 = DraftView { remarks: sv.remarks, ..d9 };
    let d11 = DraftView { notify: sv.notify, ..d10 };
    let d12 = DraftView { wanted_show: sv.wanted_show, ..d11 };
    let d13 = DraftView { wanted_list_id: sv.wanted_list_id, ..d12 };
    match sv.condition {
        None => {
            assert(g8.len() == 0);
            assert(q9 == q8);
            assert(d9 =~= d8);
        },
        Some(tv) => {
            assert(g8 == text_elem("<CONDITION>"@, tv, "</CONDITION>"@));
            lemma_text_elem_at(s, q8, "<CONDITION>"@, tv, "</CONDITION>"@);
            assert(s[q8 + 0] == "<CONDITION>"@[0]);
            assert(skip_ws(s, q8) == q8);
            assert(s[q8 + 1] == "<CONDITION>"@[1]);
            lemma_chars_at_differs(s, q8, "</ITEM>"@, 1);
            assert(s[q8 + 1] == "<CONDITION>"@[1]);
            lemma_chars_at_differs(s, q8, "<ITEMTYPE>"@, 1);
            assert(s[q8 + 1] == "<CONDITION>"@[1]);
            lemma_chars_at_differs(s, q8, "<ITEMID>"@, 1);
            assert(s[q8 + 3] == "<CONDITION>"@[3]);
            lemma_chars_at_differs(s, q8, "<COLOR>"@, 3);
            assert(s[q8 + 1] == "<CONDITION>"@[1]);
            lemma_chars_at_differs(s, q8, "<MAXPRICE>"@, 1);
            assert(s[q8 + 1] == "<CONDITION>"@[1]);
            lemma_chars_at_differs(s, q8, "<MINQTY>"@, 1);
            assert(s[q8 + 1] == "<CONDITION>"@[1]);
            lemma_chars_at_differs(s, q8, "<QTYFILLED>"@, 1);
            let qt = q8 + 11 + escape(tv).len();
            assert(chars_at(s, qt, "</CONDITION>"@));
            assert((DraftView { condition: Some(tv), ..d8 }) =~= d9);
            assert(spec_parse_children(s, q8, d8) == spec_parse_children(s, qt + 12, d9));
            assert(qt + 12 == q9);
        },
    }
    match sv.remarks {
        None => {
            assert(g9.len() == 0);
            assert(q10 == q9);
            assert(d10 =~= d9);
        },
        Some(tv) => {
            assert(g9 == text_elem("<REMARKS>"@, tv, "</REMARKS>"@));
            lemma_text_elem_at(s, q9, "<REMARKS>"@, tv, "</REMARKS>"@);
            assert(s[q9 + 0] == "<REMARKS>"@[0]);
            assert(skip_ws(s, q9) == q9);
            assert(s[q9 + 1] == "<REMARKS>"@[1]);
            lemma_chars_at_differs(s, q9, "</ITEM>"@, 1);
            assert(s[q9 + 1] == "<REMARKS>"@[1]);
            lemma_chars_at_differs(s, q9, "<ITEMTYPE>"@, 1);
            assert(s[q9 + 1] == "<REMARKS>"@[1]);
            lemma_chars_at_differs(s, q9, "<ITEMID>"@, 1);
            assert(s[q9 + 1] == "<REMARKS>"@[1]);
            lemma_chars_at_differs(s, q9, "<COLOR>"@, 1);
            assert(s[q9 + 1] == "<REMARKS>"@[1]);
            lemma_chars_at_differs(s, q9, "<MAXPRICE>"@, 1);
            assert(s[q9 + 1] == "<REMARKS>"@[1]);
            lemma_chars_at_differs(s, q9, "<MINQTY>"@, 1);
            assert(s[q9 + 1] == "<REMARKS>"@[1]);
            lemma_chars_at_differs(s, q9, "<QTYFILLED>"@, 1);
            assert(s[q9 + 1] == "<REMARKS>"@[1]);
            lemma_chars_at_differs(s, q9, "<CONDITION>"@, 1);
            let qt = q9 + 9 + escape(tv).len();
            assert(chars_at(s, qt, "</REMARKS>"@));
            assert((DraftView { remarks: Some(tv), ..d9 }) =~= d10);
            assert(spec_parse_children(s, q9, d9) == spec_parse_children(s, qt + 10, d10));
            assert(qt + 10 == q10);
        },
    }
    match sv.notify {
        None => {
            assert(g10.len() == 0);
            assert(q11 == q10);
            assert(d11 =~= d10);
        },
        Some(tv) => {
            assert(g10 == text_elem("<NOTIFY>"@, tv, "</NOTIFY>"@));
            lemma_text_elem_at(s, q10, "<NOTIFY>"@, tv, "</NOTIFY>"@);
            assert(s[q10 + 0] == "<NOTIFY>"@[0]);
            assert(skip_ws(s, q10) == q10);
            assert(s[q10 + 1] == "<NOTIFY>"@[1]);
            lemma_chars_at_differs(s, q10, "</ITEM>"@, 1);
            assert(s[q10 + 1] == "<NOTIFY>"@[1]);
            lemma_chars_at_differs(s, q10, "<ITEMTYPE>"@, 1);
            assert(s[q10 + 1] == "<NOTIFY>"@[1]);
            lemma_chars_at_differs(s, q10, "<ITEMID>"@, 1);
            assert(s[q10 + 1] == "<NOTIFY>"@[1]);
            lemma_chars_at_differs(s, q10, "<COLOR>"@, 1);
            assert(s[q10 + 1] == "<NOTIFY>"@[1]);
            lemma_chars_at_differs(s, q10, "<MAXPRICE>"@, 1);
            assert(s[q10 + 1] == "<NOTIFY>"@[1]);
            lemma_chars_at_differs(s, q10, "<MINQTY>"@, 1);
            assert(s[q10 + 1] == "<NOTIFY>"@[1]);
            lemma_chars_at_differs(s, q10, "<QTYFILLED>"@, 1);
            assert(s[q10 + 1] == "<NOTIFY>"@[1]);
            lemma_chars_at_differs(s, q10, "<CONDITION>"@, 1);
            assert(s[q10 + 1] == "<NOTIFY>"@[1]);
            lemma_chars_at_differs(s, q10, "<REMARKS>"@, 1);
            let qt = q10 + 8 + escape(tv).len();
            assert(chars_at(s, qt, "</NOTIFY>"@));
            assert((DraftView { notify: Some(tv), ..d10 }) =~= d11);
            assert(spec_parse_children(s, q10, d10) == spec_parse_children(s, qt + 9, d11));
            assert(qt + 9 == q11);
        },
    }
    match sv.wanted_show {
        None => {
            assert(g11.len() == 0);
            assert(q12 == q11);
            assert(d12 =~= d11);
        },
        Some(tv) => {
            assert(g11 == text_elem("<WANTEDSHOW>"@, tv, "</WANTEDSHOW>"@));
            lemma_text_elem_at(s, q11, "<WANTEDSHOW>"@, tv, "</WANTEDSHOW>"@);
            assert(s[q11 + 0] == "<WANTEDSHOW>"@[0]);
            assert(skip_ws(s, q11) == q11);
            assert(s[q11 + 1] == "<WANTEDSHOW>"@[1]);
            lemma_chars_at_differs(s, q11, "</ITEM>"@, 1);
            assert(s[q11 + 1] == "<WANTEDSHOW>"@[1]);
            lemma_chars_at_differs(s, q11, "<ITEMTYPE>"@, 1);
            assert(s[q11 + 1] == "<WANTEDSHOW>"@[1]);
            lemma_chars_at_differs(s, q11, "<ITEMID>"@, 1);
            assert(s[q11 + 1] == "<WANTEDSHOW>"@[1]);
            lemma_chars_at_differs(s, q11, "<COLOR>"@, 1);
            assert(s[q11 + 1] == "<WANTEDSHOW>"@[1]);
            lemma_chars_at_differs(s, q11, "<MAXPRICE>"@, 1);
            assert(s[q11 + 1] == "<WANTEDSHOW>"@[1]);
            lemma_chars_at_differs(s, q11, "<MINQTY>"@, 1);
            assert(s[q11 + 1] == "<WANTEDSHOW>"@[1]);
            lemma_chars_at_differs(s, q11, "<QTYFILLED>"@, 1);
            assert(s[q11 + 1] == "<WANTEDSHOW>"@[1]);
            lemma_chars_at_differs(s, q11, "<CONDITION>"@, 1);
            assert(s[q11 + 1] == "<WANTEDSHOW>"@[1]);
            lemma_chars_at_differs(s, q11, "<REMARKS>"@, 1);
            assert(s[q11 + 1] == "<WANTEDSHOW>"@[1]);
            lemma_chars_at_differs(s, q11, "<NOTIFY>"@, 1);
            let qt = q11 + 12 + escape(tv).len();
            assert(chars_at(s, qt, "</WANTEDSHOW>"@));
            assert((DraftView { wanted_show: Some(tv), ..d11 }) =~= d12);
            assert(spec_parse_children(s, q11, d11) == spec_parse_children(s, qt + 13, d12));
            assert(qt + 13 == q12);
        },
    }
    match sv.wanted_list_id {
        None => {
            assert(g12.len() == 0);
            assert(qlast == q12);
            assert(d13 =~= d12);
        },
        Some(tv) => {
            assert(g12 == text_elem("<WANTEDLISTID>"@, tv, "</WANTEDLISTID>"@));
            lemma_text_elem_at(s, q12, "<WANTEDLISTID>"@, tv, "</WANTEDLISTID>"@);
            assert(s[q12 + 0] == "<WANTEDLISTID>"@[0]);
            assert(skip_ws(s, q12) == q12);
            assert(s[q12 + 1] == "<WANTEDLISTID>"@[1]);
            lemma_chars_at_differs(s, q12, "</ITEM>"@, 1);
            assert(s[q12 + 1] == "<WANTEDLISTID>"@[1]);
            lemma_chars_at_differs(s, q12, "<ITEMTYPE>"@, 1);
            assert(s[q12 + 1] == "<WANTEDLISTID>"@[1]);
            lemma_chars_at_differs(s, q12, "<ITEMID>"@, 1);
            assert(s[q12 + 1] == "<WANTEDLISTID>"@[1]);
            lemma_chars_at_differs(s, q12, "<COLOR>"@, 1);
            assert(s[q12 + 1] == "<WANTEDLISTID>"@[1]);
            lemma_chars_at_differs(s, q12, "<MAXPRICE>"@, 1);
            assert(s[q12 + 1] == "<WANTEDLISTID>"@[1]);
            lemma_chars_at_differs(s, q12, "<MINQTY>"@, 1);
            assert(s[q12 + 1] == "<WANTEDLISTID>"@[1]);
            lemma_chars_at_differs(s, q12, "<QTYFILLED>"@, 1);
            assert(s[q12 + 1] == "<WANTEDLISTID>"@[1]);
            lemma_chars_at_differs(s, q12, "<CONDITION>"@, 1);
            assert(s[q12 + 1] == "<WANTEDLISTID>"@[1]);
            lemma_chars_at_differs(s, q12, "<REMARKS>"@, 1);
            assert(s[q12 + 1] == "<WANTEDLISTID>"@[1]);
            lemma_chars_at_differs(s, q12, "<NOTIFY>"@, 1);
            assert(s[q12 + 7] == "<WANTEDLISTID>"@[7]);
            lemma_chars_at_differs(s, q12, "<WANTEDSHOW>"@, 7);
            let qt = q12 + 14 + escape(tv).len();
            assert(chars_at(s, qt, "</WANTEDLISTID>"@));
            assert((DraftView { wanted_list_id: Some(tv), ..d12 }) =~= d13);
            assert(spec_parse_children(s, q12, d12) == spec_parse_children(s, qt + 15, d13));
            assert(qt + 15 == qlast);
        },
    }
    // the closing tag of the record
    assert(s[qlast + 0] == s13v[0]);
    assert(skip_ws(s, qlast) == qlast);
    assert(chars_at(s, qlast, "</ITEM>"@));
    assert(finish_draft(d13) is Ok);
    assert(finish_draft(d13)->Ok_0 =~= sv);
    assert(spec_parse_children(s, qlast, d13) == Ok::<(SerdeItemView, int), DecodeErrorView>(
        (sv, qlast + 7),
    ));
    assert(qlast + 7 == pos + part.len());
}

/// A printed record body reads back to exactly its record.
proof fn lemma_parse_children_of_print(s: Seq<char>, pos: int, sv: SerdeItemView)
    requires
        chars_at(s, pos, print_item_body(sv)),
    ensures
        spec_parse_children(s, pos, empty_draft()) == Ok::<
            (SerdeItemView, int),
            DecodeErrorView,
        >((sv, pos + print_item_body(sv).len())),
{
    lemma_body_parts(sv);
    lemma_chars_at_split(s, pos, body_a(sv), body_b(sv));
    lemma_children_first(s, pos, sv);
    lemma_children_second(s, pos + body_a(sv).len(), sv);
}

/// A printed item list reads back to exactly its items, stopping at the
/// container's closing tag.
#[verifier::rlimit(100)]
#[verifier::spinoff_prover]
proof fn lemma_parse_items_of_print(
    s: Seq<char>,
    pos: int,
    svs: Seq<SerdeItemView>,
    acc: Seq<SerdeItemView>,
)
    requires
        chars_at(s, pos, print_items(svs)),
        chars_at(s, pos + print_items(svs).len(), "</INVENTORY>"@),
    ensures
        spec_parse_items(s, pos, acc) == Ok::<(Seq<SerdeItemView>, int), DecodeErrorView>(
            (acc + svs, pos + print_items(svs).len() + 12),
        ),
    decreases svs.len(),
{
    reveal_strlit("</INVENTORY>");
    reveal_strlit("<ITEM>");
    if svs.len() == 0 {
        assert(print_items(svs).len() == 0);
        assert(s[pos + 0] == "</INVENTORY>"@[0]);
        assert(skip_ws(s, pos) == pos);
        assert(chars_at(s, pos, "</INVENTORY>"@));
        assert(acc + svs =~= acc);
    } else {
        let sv0 = svs[0];
        let rest = svs.skip(1);
        assert(print_items(svs) == print_serde_item(sv0) + print_items(rest));
        lemma_chars_at_split(s, pos, print_serde_item(sv0), print_items(rest));
        assert(print_serde_item(sv0) == "<ITEM>"@ + print_item_body(sv0));
        lemma_chars_at_split(s, pos, "<ITEM>"@, print_item_body(sv0));
        assert(s[pos + 0] == "<ITEM>"@[0]);
        assert(skip_ws(s, pos) == pos);
        assert(s[pos + 1] == "<ITEM>"@[1]);
        lemma_chars_at_differs(s, pos, "</INVENTORY>"@, 1);
        lemma_parse_children_of_print(s, pos + 6, sv0);
        let q = pos + 6 + print_item_body(sv0).len();
        assert(q == pos + print_serde_item(sv0).len());
        assert(chars_at(s, q, print_items(rest)));
        assert(q + print_items(rest).len() == pos + print_items(svs).len());
        assert(chars_at(s, q + print_items(rest).len(), "</INVENTORY>"@));
        lemma_parse_items_of_print(s, q, rest, acc.push(sv0));
        assert(acc.push(sv0) + rest =~= acc + svs);
        assert(spec_parse_items(s, pos, acc) == spec_parse_items(s, q, acc.push(sv0)));
    }
}

/// A printed document reads back to exactly its records.
#[verifier::rlimit(100)]
#[verifier::spinoff_prover]
proof fn lemma_parse_document_of_print(svs: Seq<SerdeItemView>)
    ensures
        spec_parse_document(print_document(svs)) == Ok::<Seq<SerdeItemView>, DecodeErrorView>(
            svs,
        ),
{
    reveal_strlit("<?xml version=\"1.0\" encoding=\"UTF-8\"?>");
    reveal_strlit("<?xml");
    reveal_strlit("<INVENTORY>");
    reveal_strlit("</INVENTORY>");
    let s = print_document(svs);
    let h = xml_header();
    let pl = print_items(svs);
    assert(s == ((h + "<INVENTORY>"@) + pl) + "</INVENTORY>"@);
    assert(chars_at(s, 0, s)) by {
        assert(forall|j: int| 0 <= j < s.len() ==> s[0 + j] == #[trigger] s[j]);
    }
    lemma_chars_at_split(s, 0, (h + "<INVENTORY>"@) + pl, "</INVENTORY>"@);
    lemma_chars_at_split(s, 0, h + "<INVENTORY>"@, pl);
    lemma_chars_at_split(s, 0, h, "<INVENTORY>"@);
    assert(h.len() == 38);
    assert(s[0int + 0] == h[0]);
    assert(skip_ws(s, 0) == 0);
    assert(chars_at(s, 0, "<?xml"@)) by {
        assert forall|j: int| 0 <= j < 5 implies s[0 + j] == #[trigger] "<?xml"@[j] by {
            assert(s[0 + j] == h[j]);
        }
    }
    assert(skip_decl(s, 5) == skip_decl(s, 6)) by {
        assert(s[5] == h[5]);
    }
    assert(skip_decl(s, 6) == skip_decl(s, 7)) by {
        assert(s[6] == h[6]);
    }
    assert(skip_decl(s, 7) == skip_decl(s, 8)) by {
        assert(s[7] == h[7]);
    }
    assert(skip_decl(s, 8) == skip_decl(s, 9)) by {
        assert(s[8] == h[8]);
    }
    assert(skip_decl(s, 9) == skip_decl(s, 10)) by {
        assert(s[9] == h[9]);
    }
    assert(skip_decl(s, 10) == skip_decl(s, 11)) by {
        assert(s[10] == h[10]);
    }
    assert(skip_decl(s, 11) == skip_decl(s, 12)) by {
        assert(s[11] == h[11]);
    }
    assert(skip_decl(s, 12) == skip_decl(s, 13)) by {
        assert(s[12] == h[12]);
    }
    assert(skip_decl(s, 13) == skip_decl(s, 14)) by {
        assert(s[13] == h[13]);
    }
    assert(skip_decl(s, 14) == skip_decl(s, 15)) by {
        assert(s[14] == h[14]);
    }
    assert(skip_decl(s, 15) == skip_decl(s, 16)) by {
        assert(s[15] == h[15]);
    }
    assert(skip_decl(s, 16) == skip_decl(s, 17)) by {
        assert(s[16] == h[16]);
    }
    assert(skip_decl(s, 17) == skip_decl(s, 18)) by {
        assert(s[17] == h[17]);
    }
    assert(skip_decl(s, 18) == skip_decl(s, 19)) by {
        assert(s[18] == h[18]);
    }
    assert(skip_decl(s, 19) == skip_decl(s, 20)) by {
        assert(s[19] == h[19]);
    }
    assert(skip_decl(s, 20) == skip_decl(s, 21)) by {
        assert(s[20] == h[20]);
    }
    assert(skip_decl(s, 21) == skip_decl(s, 22)) by {
        assert(s[21] == h[21]);
    }
    assert(skip_decl(s, 22) == skip_decl(s, 23)) by {
        assert(s[22] == h[22]);
    }
    assert(skip_decl(s, 23) == skip_decl(s, 24)) by {
        assert(s[23] == h[23]);
    }
    assert(skip_decl(s, 24) == skip_decl(s, 25)) by {
        assert(s[24] == h[24]);
    }
    assert(skip_decl(s, 25) == skip_decl(s, 26)) by {
        assert(s[25] == h[25]);
    }
    assert(skip_decl(s, 26) == skip_decl(s, 27)) by {
        assert(s[26] == h[26]);
    }
    assert(skip_decl(s, 27) == skip_decl(s, 28)) by {
        assert(s[27] == h[27]);
    }
    assert(skip_decl(s, 28) == skip_decl(s, 29)) by {
        assert(s[28] == h[28]);
    }
    assert(skip_decl(s, 29) == skip_decl(s, 30)) by {
        assert(s[29] == h[29]);
    }
    assert(skip_decl(s, 30) == skip_decl(s, 31)) by {
        assert(s[30] == h[30]);
    }
    assert(skip_decl(s, 31) == skip_decl(s, 32)) by {
        assert(s[31] == h[31]);
    }
    assert(skip_decl(s, 32) == skip_decl(s, 33)) by {
        assert(s[32] == h[32]);
    }
    assert(skip_decl(s, 33) == skip_decl(s, 34)) by {
        assert(s[33] == h[33]);
    }
    assert(skip_decl(s, 34) == skip_decl(s, 35)) by {
        assert(s[34] == h[34]);
    }
    assert(skip_decl(s, 35) == skip_decl(s, 36)) by {
        assert(s[35] == h[35]);
    }
    assert(s[36] == h[36]);
    assert(s[37] == h[37]);
    assert(skip_decl(s, 36) == 38);
    assert(skip_decl(s, 5) == 38);
    assert(s[38int + 0] == "<INVENTORY>"@[0]);
    assert(skip_ws(s, 38) == 38);
    assert(chars_at(s, 38, "<INVENTORY>"@));
    assert((h + "<INVENTORY>"@).len() == 49);
    assert(chars_at(s, 49, pl));
    assert(chars_at(s, 49int + pl.len(), "</INVENTORY>"@));
    lemma_parse_items_of_print(s, 49, svs, Seq::empty());
    assert(Seq::<SerdeItemView>::empty() + svs =~= svs);
    assert(s.len() == 61 + pl.len());
    assert(skip_ws(s, 61int + pl.len()) == s.len());
}

/// The round-trip law: for any list, reading the written document gives the
/// list back — over the same specifications that `encode` and `decode` are
/// proved against.
pub proof fn lemma_round_trip(items: Seq<ItemView>)
    ensures
        spec_decode(spec_encode(items)) == Ok::<Seq<ItemView>, DecodeErrorView>(items),
{
    lemma_parse_document_of_print(spec_serde_items(items));
    lemma_items_codec_roundtrip(items);
}

} // verus!
