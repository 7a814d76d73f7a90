//! The wire reader: XML text parsed back into wire records.
//!
//! The reader accepts the writer's shape and a little more: whitespace may
//! stand between tags, the leading declaration may be absent, and an empty
//! container may be self-closing.  Inside a record the child elements may
//! come in any order, but each at most once; the record's type and
//! identifier are mandatory.  Text content ends at the next tag; the five
//! named entities decode to their characters, and any other use of `&` is
//! malformed.
use vstd::prelude::*;

use crate::errors::{DecodeError, DecodeErrorView, WireField};
use crate::numbers::{
    lemma_parse_i8_bounds, lemma_parse_u64_loop_bounds, parse_i8_at, parse_u64_at, spec_parse_i8,
    spec_parse_u64_loop,
};
use crate::text::push_char;
use crate::wanted::{
    spec_items_of_serde, ItemView, SerdeItem, SerdeItemView, SerdeWantedList, WantedList,
};

verus! {

// ---------------------------------------------------------------------------
// Characters, whitespace, literals
// ---------------------------------------------------------------------------

pub open spec fn is_ws(c: char) -> bool {
    c == ' ' || c == '\t' || c == '\r' || c == '\n'
}

/// The first position at or after `pos` holding something other than
/// whitespace.
pub open spec fn skip_ws(s: Seq<char>, pos: int) -> int
    decreases s.len() - pos,
{
    if !(0 <= pos < s.len()) {
        pos
    } else if is_ws(s[pos]) {
        skip_ws(s, pos + 1)
    } else {
        pos
    }
}

/// Skipping whitespace stays between the start and the end of the input.
pub proof fn lemma_skip_ws_bounds(s: Seq<char>, pos: int)
    ensures
        0 <= pos <= s.len() ==> pos <= skip_ws(s, pos) <= s.len(),
    decreases s.len() - pos,
{
    if 0 <= pos < s.len() && is_ws(s[pos]) {
        lemma_skip_ws_bounds(s, pos + 1);
    }
}

/// The literal `t` stands at `pos`.
pub open spec fn chars_at(s: Seq<char>, pos: int, t: Seq<char>) -> bool {
    &&& 0 <= pos
    &&& pos + t.len() <= s.len()
    &&& forall|j: int| 0 <= j < t.len() ==> s[pos + j] == t[j]
}

/// A literal fails to stand at `pos` as soon as one character differs.
pub proof fn lemma_chars_at_differs(s: Seq<char>, pos: int, t: Seq<char>, d: int)
    requires
        0 <= d < t.len(),
        pos + d < s.len(),
        s[pos + d] != t[d],
    ensures
        !chars_at(s, pos, t),
{
    if chars_at(s, pos, t) {
        assert(s[pos + d] == t[d]);
    }
}

// ---------------------------------------------------------------------------
// Text content
// ---------------------------------------------------------------------------

/// Text content from `pos` up to the next `<`, the five named entities
/// decoded, appended onto `acc`.  Reaching the end of input before a tag,
/// or any other use of `&`, is malformed.
pub open spec fn spec_parse_text(s: Seq<char>, pos: int, acc: Seq<char>) -> Result<
    (Seq<char>, int),
    DecodeErrorView,
>
    decreases s.len() - pos,
{
    if !(0 <= pos <= s.len()) {
        Err(DecodeErrorView::Malformed)
    } else if pos == s.len() {
        Err(DecodeErrorView::Malformed)
    } else if s[pos] == '<' {
        Ok((acc, pos))
    } else if s[pos] == '&' {
        if pos + 5 <= s.len() && s[pos + 1] == 'a' && s[pos + 2] == 'm' && s[pos + 3] == 'p' && s[
            pos + 4
        ] == ';' {
            spec_parse_text(s, pos + 5, acc.push('&'))
        } else if pos + 4 <= s.len() && s[pos + 1] == 'l' && s[pos + 2] == 't' && s[pos + 3]
            == ';' {
            spec_parse_text(s, pos + 4, acc.push('<'))
        } else if pos + 4 <= s.len() && s[pos + 1] == 'g' && s[pos + 2] == 't' && s[pos + 3]
            == ';' {
            spec_parse_text(s, pos + 4, acc.push('>'))
        } else if pos + 6 <= s.len() && s[pos + 1] == 'q' && s[pos + 2] == 'u' && s[pos + 3] == 'o'
            && s[pos + 4] == 't' && s[pos + 5] == ';' {
            spec_parse_text(s, pos + 6, acc.push('"'))
        } else if pos + 6 <= s.len() && s[pos + 1] == 'a' && s[pos + 2] == 'p' && s[pos + 3] == 'o'
            && s[pos + 4] == 's' && s[pos + 5] == ';' {
            spec_parse_text(s, pos + 6, acc.push('\''))
        } else {
            Err(DecodeErrorView::Malformed)
        }
    } else {
        spec_parse_text(s, pos + 1, acc.push(s[pos]))
    }
}

/// A successful text read lands between its start and the end of input.
pub proof fn lemma_parse_text_bounds(s: Seq<char>, pos: int, acc: Seq<char>)
    ensures
        (match spec_parse_text(s, pos, acc) {
            Ok((t, q)) => pos <= q <= s.len(),
            Err(_) => true,
        }),
    decreases s.len() - pos,
{
    if 0 <= pos < s.len() {
        if s[pos] == '<' {
        } else if s[pos] == '&' {
            if pos + 5 <= s.len() && s[pos + 1] == 'a' && s[pos + 2] == 'm' && s[pos + 3] == 'p'
                && s[pos + 4] == ';' {
                lemma_parse_text_bounds(s, pos + 5, acc.push('&'));
            } else if pos + 4 <= s.len() && s[pos + 1] == 'l' && s[pos + 2] == 't' && s[pos + 3]
                == ';' {
                lemma_parse_text_bounds(s, pos + 4, acc.push('<'));
            } else if pos + 4 <= s.len() && s[pos + 1] == 'g' && s[pos + 2] == 't' && s[pos + 3]
                == ';' {
                lemma_parse_text_bounds(s, pos + 4, acc.push('>'));
            } else if pos + 6 <= s.len() && s[pos + 1] == 'q' && s[pos + 2] == 'u' && s[pos + 3]
                == 'o' && s[pos + 4] == 't' && s[pos + 5] == ';' {
                lemma_parse_text_bounds(s, pos + 6, acc.push('"'));
            } else if pos + 6 <= s.len() && s[pos + 1] == 'a' && s[pos + 2] == 'p' && s[pos + 3]
                == 'o' && s[pos + 4] == 's' && s[pos + 5] == ';' {
                lemma_parse_text_bounds(s, pos + 6, acc.push('\''));
            }
        } else {
            lemma_parse_text_bounds(s, pos + 1, acc.push(s[pos]));
        }
    }
}

// ---------------------------------------------------------------------------
// One record's children
// ---------------------------------------------------------------------------

/// The record under construction while its children are read.
#[verifier::ext_equal]
pub struct DraftView {
    pub item_type: Option<Seq<char>>,
    pub item_id: Option<Seq<char>>,
    pub color: Option<i8>,
    pub max_price: Option<Seq<char>>,
    pub min_qty: Option<u64>,
    pub qty_filled: Option<u64>,
    pub condition: Option<Seq<char>>,
    pub remarks: Option<Seq<char>>,
    pub notify: Option<Seq<char>>,
    pub wanted_show: Option<Seq<char>>,
    pub wanted_list_id: Option<Seq<char>>,
}

pub open spec fn empty_draft() -> DraftView {
    DraftView {
        item_type: None,
        item_id: None,
        color: None,
        max_price: None,
        min_qty: None,
        qty_filled: None,
        condition: None,
        remarks: None,
        notify: None,
        wanted_show: None,
        wanted_list_id: None,
    }
}

/// Closes a record: the type and the identifier must have appeared.
pub open spec fn finish_draft(d: DraftView) -> Result<SerdeItemView, DecodeErrorView> {
    match d.item_type {
        None => Err(DecodeErrorView::MissingField { field: WireField::ItemType }),
        Some(t) => match d.item_id {
            None => Err(DecodeErrorView::MissingField { field: WireField::ItemId }),
            Some(id) => Ok(
                SerdeItemView {
                    item_type: t,
                    item_id: id,
                    color: d.color,
                    max_price: d.max_price,
                    min_qty: d.min_qty,
                    qty_filled: d.qty_filled,
                    condition: d.condition,
                    remarks: d.remarks,
                    notify: d.notify,
                    wanted_show: d.wanted_show,
                    wanted_list_id: d.wanted_list_id,
                },
            ),
        },
    }
}

/// Reads one record's children from `pos` until `</ITEM>`, in any order,
/// each child at most once.
pub open spec fn spec_parse_children(s: Seq<char>, pos: int, d: DraftView) -> Result<
    (SerdeItemView, int),
    DecodeErrorView,
>
    decreases s.len() - pos,
    via check_children_decreases
{
    if !(0 <= pos <= s.len()) {
        Err(DecodeErrorView::Malformed)
    } else {
        let p = skip_ws(s, pos);
        if chars_at(s, p, "</ITEM>"@) {
            match finish_draft(d) {
                Ok(sv) => Ok((sv, p + 7)),
                Err(e) => Err(e),
            }
        } else if chars_at(s, p, "<ITEMTYPE>"@) {
            if d.item_type is Some {
                Err(DecodeErrorView::DuplicateField { field: WireField::ItemType })
            } else {
                match spec_parse_text(s, p + 10, Seq::empty()) {
                    Err(e) => Err(e),
                    Ok((t, q)) => if chars_at(s, q, "</ITEMTYPE>"@) {
                        spec_parse_children(s, q + 11, DraftView { item_type: Some(t), ..d })
                    } else {
                        Err(DecodeErrorView::Malformed)
                    },
                }
            }
        } else if chars_at(s, p, "<ITEMID>"@) {
            if d.item_id is Some {
                Err(DecodeErrorView::DuplicateField { field: WireField::ItemId })
            } else {
                match spec_parse_text(s, p + 8, Seq::empty()) {
                    Err(e) => Err(e),
                    Ok((t, q)) => if chars_at(s, q, "</ITEMID>"@) {
                        spec_parse_children(s, q + 9, DraftView { item_id: Some(t), ..d })
                    } else {
                        Err(DecodeErrorView::Malformed)
                    },
                }
            }
        } else if chars_at(s, p, "<COLOR>"@) {
            if d.color is Some {
                Err(DecodeErrorView::DuplicateField { field: WireField::Color })
            } else {
                match spec_parse_i8(s, p + 7) {
                    None => Err(DecodeErrorView::InvalidNumber { field: WireField::Color }),
                    Some((v, q)) => if chars_at(s, q, "</COLOR>"@) {
                        spec_parse_children(s, q + 8, DraftView { color: Some(v), ..d })
                    } else {
                        Err(DecodeErrorView::Malformed)
                    },
                }
            }
        } else if chars_at(s, p, "<MAXPRICE>"@) {
            if d.max_price is Some {
                Err(DecodeErrorView::DuplicateField { field: WireField::MaxPrice })
            } else {
                match spec_parse_text(s, p + 10, Seq::empty()) {
                    Err(e) => Err(e),
                    Ok((t, q)) => if chars_at(s, q, "</MAXPRICE>"@) {
                        spec_parse_children(s, q + 11, DraftView { max_price: Some(t), ..d })
                    } else {
                        Err(DecodeErrorView::Malformed)
                    },
                }
            }
        } else if chars_at(s, p, "<MINQTY>"@) {
            if d.min_qty is Some {
                Err(DecodeErrorView::DuplicateField { field: WireField::MinQty })
            } else {
                match spec_parse_u64_loop(s, p + 8, 0, false) {
                    None => Err(DecodeErrorView::InvalidNumber { field: WireField::MinQty }),
                    Some((v, q)) => if chars_at(s, q, "</MINQTY>"@) {
                        spec_parse_children(s, q + 9, DraftView { min_qty: Some(v), ..d })
                    } else {
                        Err(DecodeErrorView::Malformed)
                    },
                }
            }
        } else if chars_at(s, p, "<QTYFILLED>"@) {
            if d.qty_filled is Some {
                Err(DecodeErrorView::DuplicateField { field: WireField::QtyFilled })
            } else {
                match spec_parse_u64_loop(s, p + 11, 0, false) {
                    None => Err(DecodeErrorView::InvalidNumber { field: WireField::QtyFilled }),
                    Some((v, q)) => if chars_at(s, q, "</QTYFILLED>"@) {
                        spec_parse_children(s, q + 12, DraftView { qty_filled: Some(v), ..d })
                    } else {
                        Err(DecodeErrorView::Malformed)
                    },
                }
            }
        } else if chars_at(s, p, "<CONDITION>"@) {
            if d.condition is Some {
                Err(DecodeErrorView::DuplicateField { field: WireField::Condition })
            } else {
                match spec_parse_text(s, p + 11, Seq::empty()) {
                    Err(e) => Err(e),
                    Ok((t, q)) => if chars_at(s, q, "</CONDITION>"@) {
                        spec_parse_children(s, q + 12, DraftView { condition: Some(t), ..d })
                    } else {
                        Err(DecodeErrorView::Malformed)
                    },
                }
            }
        } else if chars_at(s, p, "<REMARKS>"@) {
            if d.remarks is Some {
                Err(DecodeErrorView::DuplicateField { field: WireField::Remarks })
            } else {
                match spec_parse_text(s, p + 9, Seq::empty()) {
                    Err(e) => Err(e),
                    Ok((t, q)) => if chars_at(s, q, "</REMARKS>"@) {
                        spec_parse_children(s, q + 10, DraftView { remarks: Some(t), ..d })
                    } else {
                        Err(DecodeErrorView::Malformed)
                    },
                }
            }
        } else if chars_at(s, p, "<NOTIFY>"@) {
            if d.notify is Some {
                Err(DecodeErrorView::DuplicateField { field: WireField::Notify })
            } else {
                match spec_parse_text(s, p + 8, Seq::empty()) {
                    Err(e) => Err(e),
                    Ok((t, q)) => if chars_at(s, q, "</NOTIFY>"@) {
                        spec_parse_children(s, q + 9, DraftView { notify: Some(t), ..d })
                    } else {
                        Err(DecodeErrorView::Malformed)
                    },
                }
            }
        } else if chars_at(s, p, "<WANTEDSHOW>"@) {
            if d.wanted_show is Some {
                Err(DecodeErrorView::DuplicateField { field: WireField::WantedShow })
            } else {
                match spec_parse_text(s, p + 12, Seq::empty()) {
                    Err(e) => Err(e),
                    Ok((t, q)) => if chars_at(s, q, "</WANTEDSHOW>"@) {
                        spec_parse_children(s, q + 13, DraftView { wanted_show: Some(t), ..d })
                    } else {
                        Err(DecodeErrorView::Malformed)
                    },
                }
            }
        } else if chars_at(s, p, "<WANTEDLISTID>"@) {
            if d.wanted_list_id is Some {
                Err(DecodeErrorView::DuplicateField { field: WireField::WantedListId })
            } else {
                match spec_parse_text(s, p + 14, Seq::empty()) {
                    Err(e) => Err(e),
                    Ok((t, q)) => if chars_at(s, q, "</WANTEDLISTID>"@) {
                        spec_parse_children(s, q + 15, DraftView { wanted_list_id: Some(t), ..d })
                    } else {
                        Err(DecodeErrorView::Malformed)
                    },
                }
            }
        } else {
            Err(DecodeErrorView::Malformed)
        }
    }
}

#[via_fn]
proof fn check_children_decreases(s: Seq<char>, pos: int, d: DraftView) {
    reveal_strlit("</ITEM>");
    reveal_strlit("<ITEMTYPE>");
    reveal_strlit("</ITEMTYPE>");
    reveal_strlit("<ITEMID>");
    reveal_strlit("</ITEMID>");
    reveal_strlit("<COLOR>");
    reveal_strlit("</COLOR>");
    reveal_strlit("<MAXPRICE>");
    reveal_strlit("</MAXPRICE>");
    reveal_strlit("<MINQTY>");
    reveal_strlit("</MINQTY>");
    reveal_strlit("<QTYFILLED>");
    reveal_strlit("</QTYFILLED>");
    reveal_strlit("<CONDITION>");
    reveal_strlit("</CONDITION>");
    reveal_strlit("<REMARKS>");
    reveal_strlit("</REMARKS>");
    reveal_strlit("<NOTIFY>");
    reveal_strlit("</NOTIFY>");
    reveal_strlit("<WANTEDSHOW>");
    reveal_strlit("</WANTEDSHOW>");
    reveal_strlit("<WANTEDLISTID>");
    reveal_strlit("</WANTEDLISTID>");
    lemma_skip_ws_bounds(s, pos);
    let p = skip_ws(s, pos);
    lemma_parse_text_bounds(s, p + 10, Seq::empty());
    lemma_parse_text_bounds(s, p + 8, Seq::empty());
    lemma_parse_text_bounds(s, p + 11, Seq::empty());
    lemma_parse_text_bounds(s, p + 9, Seq::empty());
    lemma_parse_text_bounds(s, p + 12, Seq::empty());
    lemma_parse_text_bounds(s, p + 14, Seq::empty());
    lemma_parse_i8_bounds(s, p + 7);
    lemma_parse_u64_loop_bounds(s, p + 8, 0, false);
    lemma_parse_u64_loop_bounds(s, p + 11, 0, false);
}

/// A successful record read moves strictly forward, at most to the end.
pub proof fn lemma_parse_children_bounds(s: Seq<char>, pos: int, d: DraftView)
    ensures
        (match spec_parse_children(s, pos, d) {
            Ok((sv, q)) => pos < q <= s.len(),
            Err(_) => true,
        }),
    decreases s.len() - pos,
{
    reveal_strlit("</ITEM>");
    reveal_strlit("<ITEMTYPE>");
    reveal_strlit("</ITEMTYPE>");
    reveal_strlit("<ITEMID>");
    reveal_strlit("</ITEMID>");
    reveal_strlit("<COLOR>");
    reveal_strlit("</COLOR>");
    reveal_strlit("<MAXPRICE>");
    reveal_strlit("</MAXPRICE>");
    reveal_strlit("<MINQTY>");
    reveal_strlit("</MINQTY>");
    reveal_strlit("<QTYFILLED>");
    reveal_strlit("</QTYFILLED>");
    reveal_strlit("<CONDITION>");
    reveal_strlit("</CONDITION>");
    reveal_strlit("<REMARKS>");
    reveal_strlit("</REMARKS>");
    reveal_strlit("<NOTIFY>");
    reveal_strlit("</NOTIFY>");
    reveal_strlit("<WANTEDSHOW>");
    reveal_strlit("</WANTEDSHOW>");
    reveal_strlit("<WANTEDLISTID>");
    reveal_strlit("</WANTEDLISTID>");
    if 0 <= pos <= s.len() {
        lemma_skip_ws_bounds(s, pos);
        let p = skip_ws(s, pos);
        lemma_parse_text_bounds(s, p + 10, Seq::empty());
        lemma_parse_text_bounds(s, p + 8, Seq::empty());
        lemma_parse_text_bounds(s, p + 11, Seq::empty());
        lemma_parse_text_bounds(s, p + 9, Seq::empty());
        lemma_parse_text_bounds(s, p + 12, Seq::empty());
        lemma_parse_text_bounds(s, p + 14, Seq::empty());
        lemma_parse_i8_bounds(s, p + 7);
        lemma_parse_u64_loop_bounds(s, p + 8, 0, false);
        lemma_parse_u64_loop_bounds(s, p + 11, 0, false);
        if chars_at(s, p, "</ITEM>"@) {
        } else if chars_at(s, p, "<ITEMTYPE>"@) {
            if d.item_type is None {
                match spec_parse_text(s, p + 10, Seq::empty()) {
                    Ok((t, q)) => {
                        if chars_at(s, q, "</ITEMTYPE>"@) {
                            lemma_parse_children_bounds(
                                s,
                                q + 11,
                                DraftView { item_type: Some(t), ..d },
                            );
                        }
                    },
                    Err(_) => {},
                }
            }
        } else if chars_at(s, p, "<ITEMID>"@) {
            if d.item_id is None {
                match spec_parse_text(s, p + 8, Seq::empty()) {
                    Ok((t, q)) => {
                        if chars_at(s, q, "</ITEMID>"@) {
                            lemma_parse_children_bounds(
                                s,
                                q + 9,
                                DraftView { item_id: Some(t), ..d },
                            );
                        }
                    },
                    Err(_) => {},
                }
            }
        } else if chars_at(s, p, "<COLOR>"@) {
            if d.color is None {
                match spec_parse_i8(s, p + 7) {
                    Some((v, q)) => {
                        if chars_at(s, q, "</COLOR>"@) {
                            lemma_parse_children_bounds(
                                s,
                                q + 8,
                                DraftView { color: Some(v), ..d },
                            );
                        }
                    },
                    None => {},
                }
            }
        } else if chars_at(s, p, "<MAXPRICE>"@) {
            if d.max_price is None {
                match spec_parse_text(s, p + 10, Seq::empty()) {
                    Ok((t, q)) => {
                        if chars_at(s, q, "</MAXPRICE>"@) {
                            lemma_parse_children_bounds(
                                s,
                                q + 11,
                                DraftView { max_price: Some(t), ..d },
                            );
                        }
                    },
                    Err(_) => {},
                }
            }
        } else if chars_at(s, p, "<MINQTY>"@) {
            if d.min_qty is None {
                match spec_parse_u64_loop(s, p + 8, 0, false) {
                    Some((v, q)) => {
                        if chars_at(s, q, "</MINQTY>"@) {
                            lemma_parse_children_bounds(
                                s,
                                q + 9,
                                DraftView { min_qty: Some(v), ..d },
                            );
                        }
                    },
                    None => {},
                }
            }
        } else if chars_at(s, p, "<QTYFILLED>"@) {
            if d.qty_filled is None {
                match spec_parse_u64_loop(s, p + 11, 0, false) {
                    Some((v, q)) => {
                        if chars_at(s, q, "</QTYFILLED>"@) {
                            lemma_parse_children_bounds(
                                s,
                                q + 12,
                                DraftView { qty_filled: Some(v), ..d },
                            );
                        }
                    },
                    None => {},
                }
            }
        } else if chars_at(s, p, "<CONDITION>"@) {
            if d.condition is None {
                match spec_parse_text(s, p + 11, Seq::empty()) {
                    Ok((t, q)) => {
                        if chars_at(s, q, "</CONDITION>"@) {
                            lemma_parse_children_bounds(
                                s,
                                q + 12,
                                DraftView { condition: Some(t), ..d },
                            );
                        }
                    },
                    Err(_) => {},
                }
            }
        } else if chars_at(s, p, "<REMARKS>"@) {
            if d.remarks is None {
                match spec_parse_text(s, p + 9, Seq::empty()) {
                    Ok((t, q)) => {
                        if chars_at(s, q, "</REMARKS>"@) {
                            lemma_parse_children_bounds(
                                s,
                                q + 10,
                                DraftView { remarks: Some(t), ..d },
                            );
                        }
                    },
                    Err(_) => {},
                }
            }
        } else if chars_at(s, p, "<NOTIFY>"@) {
            if d.notify is None {
                match spec_parse_text(s, p + 8, Seq::empty()) {
                    Ok((t, q)) => {
                        if chars_at(s, q, "</NOTIFY>"@) {
                            lemma_parse_children_bounds(
                                s,
                                q + 9,
                                DraftView { notify: Some(t), ..d },
                            );
                        }
                    },
                    Err(_) => {},
                }
            }
        } else if chars_at(s, p, "<WANTEDSHOW>"@) {
            if d.wanted_show is None {
                match spec_parse_text(s, p + 12, Seq::empty()) {
                    Ok((t, q)) => {
                        if chars_at(s, q, "</WANTEDSHOW>"@) {
                            lemma_parse_children_bounds(
                                s,
                                q + 13,
                                DraftView { wanted_show: Some(t), ..d },
                            );
                        }
                    },
                    Err(_) => {},
                }
            }
        } else if chars_at(s, p, "<WANTEDLISTID>"@) {
            if d.wanted_list_id is None {
                match spec_parse_text(s, p + 14, Seq::empty()) {
                    Ok((t, q)) => {
                        if chars_at(s, q, "</WANTEDLISTID>"@) {
                            lemma_parse_children_bounds(
                                s,
                                q + 15,
                                DraftView { wanted_list_id: Some(t), ..d },
                            );
                        }
                    },
                    Err(_) => {},
                }
            }
        }
    }
}

// ---------------------------------------------------------------------------
// The item list and the whole document
// ---------------------------------------------------------------------------

/// Reads records until `</INVENTORY>`, appending onto `acc`.
pub open spec fn spec_parse_items(s: Seq<char>, pos: int, acc: Seq<SerdeItemView>) -> Result<
    (Seq<SerdeItemView>, int),
    DecodeErrorView,
>
    decreases s.len() - pos,
    via check_items_decreases
{
    if !(0 <= pos <= s.len()) {
        Err(DecodeErrorView::Malformed)
    } else {
        let p = skip_ws(s, pos);
        if chars_at(s, p, "</INVENTORY>"@) {
            Ok((acc, p + 12))
        } else if chars_at(s, p, "<ITEM>"@) {
            match spec_parse_children(s, p + 6, empty_draft()) {
                Err(e) => Err(e),
                Ok((item, q)) => spec_parse_items(s, q, acc.push(item)),
            }
        } else {
            Err(DecodeErrorView::Malformed)
        }
    }
}

#[via_fn]
proof fn check_items_decreases(s: Seq<char>, pos: int, acc: Seq<SerdeItemView>) {
    reveal_strlit("</INVENTORY>");
    reveal_strlit("<ITEM>");
    lemma_skip_ws_bounds(s, pos);
    let p = skip_ws(s, pos);
    lemma_parse_children_bounds(s, p + 6, empty_draft());
}

/// The position just past the `?>` that closes the declaration, or a
/// negative position when it never closes.
pub open spec fn skip_decl(s: Seq<char>, pos: int) -> int
    decreases s.len() - pos,
{
    if !(0 <= pos) {
        -1
    } else if pos + 2 <= s.len() && s[pos] == '?' && s[pos + 1] == '>' {
        pos + 2
    } else if pos < s.len() {
        skip_decl(s, pos + 1)
    } else {
        -1
    }
}

/// The whole document: optional declaration, then one container element
/// holding the records, then nothing but whitespace.
pub open spec fn spec_parse_document(s: Seq<char>) -> Result<Seq<SerdeItemView>, DecodeErrorView> {
    let p0 = skip_ws(s, 0);
    let p1 = if chars_at(s, p0, "<?xml"@) {
        skip_decl(s, p0 + 5)
    } else {
        p0
    };
    if p1 < 0 {
        Err(DecodeErrorView::Malformed)
    } else {
        let p2 = skip_ws(s, p1);
        if chars_at(s, p2, "<INVENTORY>"@) {
            match spec_parse_items(s, p2 + 11, Seq::empty()) {
                Err(e) => Err(e),
                Ok((items, q)) => if skip_ws(s, q) == s.len() {
                    Ok(items)
                } else {
                    Err(DecodeErrorView::Malformed)
                },
            }
        } else if chars_at(s, p2, "<INVENTORY/>"@) {
            if skip_ws(s, p2 + 12) == s.len() {
                Ok(Seq::empty())
            } else {
                Err(DecodeErrorView::Malformed)
            }
        } else {
            Err(DecodeErrorView::Malformed)
        }
    }
}

/// The typed meaning of a document: parse the wire records, type each one.
pub open spec fn spec_decode(s: Seq<char>) -> Result<Seq<ItemView>, DecodeErrorView> {
    match spec_parse_document(s) {
        Err(e) => Err(e),
        Ok(svs) => spec_items_of_serde(svs),
    }
}

// ---------------------------------------------------------------------------
// The executable reader
// ---------------------------------------------------------------------------

/// Moves past whitespace.
fn skip_ws_at(s: &str, pos: usize, slen: usize) -> (r: usize)
    requires
        slen == s@.len(),
        pos <= slen,
    ensures
        r as int == skip_ws(s@, pos as int),
        pos <= r <= slen,
{
    let mut i: usize = pos;
    loop
        invariant
            pos <= i <= slen,
            slen == s@.len(),
            skip_ws(s@, pos as int) == skip_ws(s@, i as int),
        ensures
            pos <= i <= slen,
            skip_ws(s@, pos as int) == skip_ws(s@, i as int),
            i == slen || !is_ws(s@[i as int]),
        decreases slen - i,
    {
        if i == slen {
            break ;
        }
        let c = s.get_char(i);
        if c == ' ' || c == '\t' || c == '\r' || c == '\n' {
            i = i + 1;
        } else {
            proof {
                assert(!is_ws(s@[i as int]));
            }
            break ;
        }
    }
    proof {
        assert(skip_ws(s@, i as int) == i as int);
    }
    i
}

/// Whether the literal stands at `pos`.
fn match_lit(s: &str, pos: usize, slen: usize, lit: &str) -> (r: bool)
    requires
        slen == s@.len(),
        pos <= slen,
    ensures
        r == chars_at(s@, pos as int, lit@),
{
    let llen = lit.unicode_len();
    if slen - pos < llen {
        proof {
            assert(!chars_at(s@, pos as int, lit@));
        }
        return false;
    }
    let mut j: usize = 0;
    loop
        invariant
            j <= llen,
            llen == lit@.len(),
            slen == s@.len(),
            pos + llen <= slen,
            forall|k: int| 0 <= k < j ==> s@[pos + k] == lit@[k],
        ensures
            j <= llen,
            forall|k: int| 0 <= k < j ==> s@[pos + k] == lit@[k],
            j == llen || s@[pos + j] != lit@[j as int],
        decreases llen - j,
    {
        if j == llen {
            break ;
        }
        let cs = s.get_char(pos + j);
        let cl = lit.get_char(j);
        if cs != cl {
            break ;
        }
        j = j + 1;
    }
    if j == llen {
        proof {
            assert(chars_at(s@, pos as int, lit@));
        }
        true
    } else {
        proof {
            lemma_chars_at_differs(s@, pos as int, lit@, j as int);
        }
        false
    }
}

/// Reads text content; mirrors [`spec_parse_text`].
fn parse_text_at(s: &str, pos: usize, slen: usize) -> (r: Result<(String, usize), DecodeError>)
    requires
        slen == s@.len(),
        pos <= slen,
    ensures
        (match r {
            Ok((t, q)) => q <= slen && spec_parse_text(s@, pos as int, Seq::empty()) == Ok::<
                (Seq<char>, int),
                DecodeErrorView,
            >((t@, q as int)),
            Err(e) => spec_parse_text(s@, pos as int, Seq::empty()) is Err && spec_parse_text(
                s@,
                pos as int,
                Seq::empty(),
            )->Err_0 == e@,
        }),
{
    let mut acc = String::new();
    let mut i: usize = pos;
    proof {
        assert(acc@ =~= Seq::<char>::empty());
    }
    loop
        invariant
            pos <= i <= slen,
            slen == s@.len(),
            spec_parse_text(s@, pos as int, Seq::empty()) == spec_parse_text(s@, i as int, acc@),
        decreases slen - i,
    {
        if i == slen {
            return Err(DecodeError::Malformed);
        }
        let c = s.get_char(i);
        if c == '<' {
            return Ok((acc, i));
        } else if c == '&' {
            if slen - i >= 5 && s.get_char(i + 1) == 'a' && s.get_char(i + 2) == 'm' && s.get_char(
                i + 3,
            ) == 'p' && s.get_char(i + 4) == ';' {
                push_char(&mut acc, '&');
                i = i + 5;
            } else if slen - i >= 4 && s.get_char(i + 1) == 'l' && s.get_char(i + 2) == 't'
                && s.get_char(i + 3) == ';' {
                push_char(&mut acc, '<');
                i = i + 4;
            } else if slen - i >= 4 && s.get_char(i + 1) == 'g' && s.get_char(i + 2) == 't'
                && s.get_char(i + 3) == ';' {
                push_char(&mut acc, '>');
                i = i + 4;
            } else if slen - i >= 6 && s.get_char(i + 1) == 'q' && s.get_char(i + 2) == 'u'
                && s.get_char(i + 3) == 'o' && s.get_char(i + 4) == 't' && s.get_char(i + 5)
                == ';' {
                push_char(&mut acc, '"');
                i = i + 6;
            } else if slen - i >= 6 && s.get_char(i + 1) == 'a' && s.get_char(i + 2) == 'p'
                && s.get_char(i + 3) == 'o' && s.get_char(i + 4) == 's' && s.get_char(i + 5)
                == ';' {
                push_char(&mut acc, '\'');
                i = i + 6;
            } else {
                return Err(DecodeError::Malformed);
            }
        } else {
            push_char(&mut acc, c);
            i = i + 1;
        }
    }
}

/// The record under construction while its children are read.
struct Draft {
    item_type: Option<String>,
    item_id: Option<String>,
    color: Option<i8>,
    max_price: Option<String>,
    min_qty: Option<u64>,
    qty_filled: Option<u64>,
    condition: Option<String>,
    remarks: Option<String>,
    notify: Option<String>,
    wanted_show: Option<String>,
    wanted_list_id: Option<String>,
}

pub open spec fn opt_view(o: Option<String>) -> Option<Seq<char>> {
    match o {
        Some(t) => Some(t@),
        None => None,
    }
}

impl View for Draft {
    type V = DraftView;

    closed spec fn view(&self) -> DraftView {
        DraftView {
            item_type: opt_view(self.item_type),
            item_id: opt_view(self.item_id),
            color: self.color,
            max_price: opt_view(self.max_price),
            min_qty: self.min_qty,
            qty_filled: self.qty_filled,
            condition: opt_view(self.condition),
            remarks: opt_view(self.remarks),
            notify: opt_view(self.notify),
            wanted_show: opt_view(self.wanted_show),
            wanted_list_id: opt_view(self.wanted_list_id),
        }
    }
}

/// Reads one record's children; mirrors [`spec_parse_children`].
#[verifier::rlimit(100)]
#[verifier::spinoff_prover]
fn parse_children_at(s: &str, pos: usize, slen: usize) -> (r: Result<
    (SerdeItem, usize),
    DecodeError,
>)
    requires
        slen == s@.len(),
        pos <= slen,
    ensures
        (match r {
            Ok((item, q)) => q <= slen && spec_parse_children(s@, pos as int, empty_draft())
                == Ok::<(SerdeItemView, int), DecodeErrorView>((item@, q as int)),
            Err(e) => spec_parse_children(s@, pos as int, empty_draft()) is Err
                && spec_parse_children(s@, pos as int, empty_draft())->Err_0 == e@,
        }),
{
    let mut draft = Draft {
        item_type: None,
        item_id: None,
        color: None,
        max_price: None,
        min_qty: None,
        qty_filled: None,
        condition: None,
        remarks: None,
        notify: None,
        wanted_show: None,
        wanted_list_id: None,
    };
    let mut i: usize = pos;
    proof {
        assert(draft@ =~= empty_draft());
    }
    loop
        invariant
            pos <= i <= slen,
            slen == s@.len(),
            spec_parse_children(s@, pos as int, empty_draft()) == spec_parse_children(
                s@,
                i as int,
                draft@,
            ),
        decreases slen - i,
    {
        let p = skip_ws_at(s, i, slen);
        if match_lit(s, p, slen, "</ITEM>") {
            proof {
                reveal_strlit("</ITEM>");
            }
            let item_type = match draft.item_type {
                Some(t) => t,
                None => {
                    return Err(DecodeError::MissingField { field: WireField::ItemType });
                },
            };
            let item_id = match draft.item_id {
                Some(t) => t,
                None => {
                    return Err(DecodeError::MissingField { field: WireField::ItemId });
                },
            };
            let item = SerdeItem {
                item_type,
                item_id,
                color: draft.color,
                max_price: draft.max_price,
                min_qty: draft.min_qty,
                qty_filled: draft.qty_filled,
                condition: draft.condition,
                remarks: draft.remarks,
                notify: draft.notify,
                wanted_show: draft.wanted_show,
                wanted_list_id: draft.wanted_list_id,
            };
            proof {
                assert(item@ =~= finish_draft(draft@)->Ok_0);
            }
            return Ok((item, p + 7));
        } else if match_lit(s, p, slen, "<ITEMTYPE>") {
            proof {
                reveal_strlit("<ITEMTYPE>");
                reveal_strlit("</ITEMTYPE>");
            }
            if draft.item_type.is_some() {
                return Err(DecodeError::DuplicateField { field: WireField::ItemType });
            }
            match parse_text_at(s, p + 10, slen) {
                Err(e) => {
                    return Err(e);
                },
                Ok((t, q)) => {
                    if match_lit(s, q, slen, "</ITEMTYPE>") {
                        let ghost d0 = draft@;
                        draft.item_type = Some(t);
                        proof {
                            lemma_parse_text_bounds(s@, p as int + 10, Seq::empty());
                            assert(draft@ =~= (DraftView { item_type: Some(t@), ..d0 }));
                            assert(spec_parse_children(s@, i as int, d0) == spec_parse_children(
                                s@,
                                q as int + 11,
                                draft@,
                            ));
                        }
                        i = q + 11;
                    } else {
                        return Err(DecodeError::Malformed);
                    }
                },
            }
        } else if match_lit(s, p, slen, "<ITEMID>") {
            proof {
                reveal_strlit("<ITEMID>");
                reveal_strlit("</ITEMID>");
            }
            if draft.item_id.is_some() {
                return Err(DecodeError::DuplicateField { field: WireField::ItemId });
            }
            match parse_text_at(s, p + 8, slen) {
                Err(e) => {
                    return Err(e);
                },
                Ok((t, q)) => {
                    if match_lit(s, q, slen, "</ITEMID>") {
                        let ghost d0 = draft@;
                        draft.item_id = Some(t);
                        proof {
                            lemma_parse_text_bounds(s@, p as int + 8, Seq::empty());
                            assert(draft@ =~= (DraftView { item_id: Some(t@), ..d0 }));
                            assert(spec_parse_children(s@, i as int, d0) == spec_parse_children(
                                s@,
                                q as int + 9,
                                draft@,
                            ));
                        }
                        i = q + 9;
                    } else {
                        return Err(DecodeError::Malformed);
                    }
                },
            }
        } else if match_lit(s, p, slen, "<COLOR>") {
            proof {
                reveal_strlit("<COLOR>");
                reveal_strlit("</COLOR>");
            }
            if draft.color.is_some() {
                return Err(DecodeError::DuplicateField { field: WireField::Color });
            }
            match parse_i8_at(s, p + 7, slen) {
                None => {
                    return Err(DecodeError::InvalidNumber { field: WireField::Color });
                },
                Some((v, q)) => {
                    if match_lit(s, q, slen, "</COLOR>") {
                        let ghost d0 = draft@;
                        draft.color = Some(v);
                        proof {
                            lemma_parse_i8_bounds(s@, p as int + 7);
                            assert(draft@ =~= (DraftView { color: Some(v), ..d0 }));
                            assert(spec_parse_children(s@, i as int, d0) == spec_parse_children(
                                s@,
                                q as int + 8,
                                draft@,
                            ));
                        }
                        i = q + 8;
                    } else {
                        return Err(DecodeError::Malformed);
                    }
                },
            }
        } else if match_lit(s, p, slen, "<MAXPRICE>") {
            proof {
                reveal_strlit("<MAXPRICE>");
                reveal_strlit("</MAXPRICE>");
            }
            if draft.max_price.is_some() {
                return Err(DecodeError::DuplicateField { field: WireField::MaxPrice });
            }
            match parse_text_at(s, p + 10, slen) {
                Err(e) => {
                    return Err(e);
                },
                Ok((t, q)) => {
                    if match_lit(s, q, slen, "</MAXPRICE>") {
                        let ghost d0 = draft@;
                        draft.max_price = Some(t);
                        proof {
                            lemma_parse_text_bounds(s@, p as int + 10, Seq::empty());
                            assert(draft@ =~= (DraftView { max_price: Some(t@), ..d0 }));
                            assert(spec_parse_children(s@, i as int, d0) == spec_parse_children(
                                s@,
                                q as int + 11,
                                draft@,
                            ));
                        }
                        i = q + 11;
                    } else {
                        return Err(DecodeError::Malformed);
                    }
                },
            }
        } else if match_lit(s, p, slen, "<MINQTY>") {
            proof {
                reveal_strlit("<MINQTY>");
                reveal_strlit("</MINQTY>");
            }
            if draft.min_qty.is_some() {
                return Err(DecodeError::DuplicateField { field: WireField::MinQty });
            }
            match parse_u64_at(s, p + 8, slen) {
                None => {
                    return Err(DecodeError::InvalidNumber { field: WireField::MinQty });
                },
                Some((v, q)) => {
                    if match_lit(s, q, slen, "</MINQTY>") {
                        let ghost d0 = draft@;
                        draft.min_qty = Some(v);
                        proof {
                            lemma_parse_u64_loop_bounds(s@, p as int + 8, 0, false);
                            assert(draft@ =~= (DraftView { min_qty: Some(v), ..d0 }));
                            assert(spec_parse_children(s@, i as int, d0) == spec_parse_children(
                                s@,
                                q as int + 9,
                                draft@,
                            ));
                        }
                        i = q + 9;
                    } else {
                        return Err(DecodeError::Malformed);
                    }
                },
            }
        } else if match_lit(s, p, slen, "<QTYFILLED>") {
            proof {
                reveal_strlit("<QTYFILLED>");
                reveal_strlit("</QTYFILLED>");
            }
            if draft.qty_filled.is_some() {
                return Err(DecodeError::DuplicateField { field: WireField::QtyFilled });
            }
            match parse_u64_at(s, p + 11, slen) {
                None => {
                    return Err(DecodeError::InvalidNumber { field: WireField::QtyFilled });
                },
                Some((v, q)) => {
                    if match_lit(s, q, slen, "</QTYFILLED>") {
                        let ghost d0 = draft@;
                        draft.qty_filled = Some(v);
                        proof {
                            lemma_parse_u64_loop_bounds(s@, p as int + 11, 0, false);
                            assert(draft@ =~= (DraftView { qty_filled: Some(v), ..d0 }));
                            assert(spec_parse_children(s@, i as int, d0) == spec_parse_children(
                                s@,
                                q as int + 12,
                                draft@,
                            ));
                        }
                        i = q + 12;
                    } else {
                        return Err(DecodeError::Malformed);
                    }
                },
            }
        } else if match_lit(s, p, slen, "<CONDITION>") {
            proof {
                reveal_strlit("<CONDITION>");
                reveal_strlit("</CONDITION>");
            }
            if draft.condition.is_some() {
                return Err(DecodeError::DuplicateField { field: WireField::Condition });
            }
            match parse_text_at(s, p + 11, slen) {
                Err(e) => {
                    return Err(e);
                },
                Ok((t, q)) => {
                    if match_lit(s, q, slen, "</CONDITION>") {
                        let ghost d0 = draft@;
                        draft.condition = Some(t);
                        proof {
                            lemma_parse_text_bounds(s@, p as int + 11, Seq::empty());
                            assert(draft@ =~= (DraftView { condition: Some(t@), ..d0 }));
                            assert(spec_parse_children(s@, i as int, d0) == spec_parse_children(
                                s@,
                                q as int + 12,
                                draft@,
                            ));
                        }
                        i = q + 12;
                    } else {
                        return Err(DecodeError::Malformed);
                    }
                },
            }
        } else if match_lit(s, p, slen, "<REMARKS>") {
            proof {
                reveal_strlit("<REMARKS>");
                reveal_strlit("</REMARKS>");
            }
            if draft.remarks.is_some() {
                return Err(DecodeError::DuplicateField { field: WireField::Remarks });
            }
            match parse_text_at(s, p + 9, slen) {
                Err(e) => {
                    return Err(e);
                },
                Ok((t, q)) => {
                    if match_lit(s, q, slen, "</REMARKS>") {
                        let ghost d0 = draft@;
                        draft.remarks = Some(t);
                        proof {
                            lemma_parse_text_bounds(s@, p as int + 9, Seq::empty());
                            assert(draft@ =~= (DraftView { remarks: Some(t@), ..d0 }));
                            assert(spec_parse_children(s@, i as int, d0) == spec_parse_children(
                                s@,
                                q as int + 10,
                                draft@,
                            ));
                        }
                        i = q + 10;
                    } else {
                        return Err(DecodeError::Malformed);
                    }
                },
            }
        } else if match_lit(s, p, slen, "<NOTIFY>") {
            proof {
                reveal_strlit("<NOTIFY>");
                reveal_strlit("</NOTIFY>");
            }
            if draft.notify.is_some() {
                return Err(DecodeError::DuplicateField { field: WireField::Notify });
            }
            match parse_text_at(s, p + 8, slen) {
                Err(e) => {
                    return Err(e);
                },
                Ok((t, q)) => {
                    if match_lit(s, q, slen, "</NOTIFY>") {
                        let ghost d0 = draft@;
                        draft.notify = Some(t);
                        proof {
                            lemma_parse_text_bounds(s@, p as int + 8, Seq::empty());
                            assert(draft@ =~= (DraftView { notify: Some(t@), ..d0 }));
                            assert(spec_parse_children(s@, i as int, d0) == spec_parse_children(
                                s@,
                                q as int + 9,
                                draft@,
                            ));
                        }
                        i = q + 9;
                    } else {
                        return Err(DecodeError::Malformed);
                    }
                },
            }
        } else if match_lit(s, p, slen, "<WANTEDSHOW>") {
            proof {
                reveal_strlit("<WANTEDSHOW>");
                reveal_strlit("</WANTEDSHOW>");
            }
            if draft.wanted_show.is_some() {
                return Err(DecodeError::DuplicateField { field: WireField::WantedShow });
            }
            match parse_text_at(s, p + 12, slen) {
                Err(e) => {
                    return Err(e);
                },
                Ok((t, q)) => {
                    if match_lit(s, q, slen, "</WANTEDSHOW>") {
                        let ghost d0 = draft@;
                        draft.wanted_show = Some(t);
                        proof {
                            lemma_parse_text_bounds(s@, p as int + 12, Seq::empty());
                            assert(draft@ =~= (DraftView { wanted_show: Some(t@), ..d0 }));
                            assert(spec_parse_children(s@, i as int, d0) == spec_parse_children(
                                s@,
                                q as int + 13,
                                draft@,
                            ));
                        }
                        i = q + 13;
                    } else {
                        return Err(DecodeError::Malformed);
                    }
                },
            }
        } else if match_lit(s, p, slen, "<WANTEDLISTID>") {
            proof {
                reveal_strlit("<WANTEDLISTID>");
                reveal_strlit("</WANTEDLISTID>");
            }
            if draft.wanted_list_id.is_some() {
                return Err(DecodeError::DuplicateField { field: WireField::WantedListId });
            }
            match parse_text_at(s, p + 14, slen) {
                Err(e) => {
                    return Err(e);
                },
                Ok((t, q)) => {
                    if match_lit(s, q, slen, "</WANTEDLISTID>") {
                        let ghost d0 = draft@;
                        draft.wanted_list_id = Some(t);
                        proof {
                            lemma_parse_text_bounds(s@, p as int + 14, Seq::empty());
                            assert(draft@ =~= (DraftView { wanted_list_id: Some(t@), ..d0 }));
                            assert(spec_parse_children(s@, i as int, d0) == spec_parse_children(
                                s@,
                                q as int + 15,
                                draft@,
                            ));
                        }
                        i = q + 15;
                    } else {
                        return Err(DecodeError::Malformed);
                    }
                },
            }
        } else {
            return Err(DecodeError::Malformed);
        }
    }
}

/// Reads records until the container closes; mirrors [`spec_parse_items`].
fn parse_items_at(s: &str, pos: usize, slen: usize) -> (r: Result<
    (Vec<SerdeItem>, usize),
    DecodeError,
>)
    requires
        slen == s@.len(),
        pos <= slen,
    ensures
        (match r {
            Ok((items, q)) => q <= slen && spec_parse_items(s@, pos as int, Seq::empty()) == Ok::<
                (Seq<SerdeItemView>, int),
                DecodeErrorView,
            >((items@.map_values(|x: SerdeItem| x@), q as int)),
            Err(e) => spec_parse_items(s@, pos as int, Seq::empty()) is Err && spec_parse_items(
                s@,
                pos as int,
                Seq::empty(),
            )->Err_0 == e@,
        }),
{
    let mut acc: Vec<SerdeItem> = Vec::new();
    let mut i: usize = pos;
    proof {
        assert(acc@.map_values(|x: SerdeItem| x@) =~= Seq::<SerdeItemView>::empty());
    }
    loop
        invariant
            pos <= i <= slen,
            slen == s@.len(),
            spec_parse_items(s@, pos as int, Seq::empty()) == spec_parse_items(
                s@,
                i as int,
                acc@.map_values(|x: SerdeItem| x@),
            ),
        decreases slen - i,
    {
        let p = skip_ws_at(s, i, slen);
        if match_lit(s, p, slen, "</INVENTORY>") {
            proof {
                reveal_strlit("</INVENTORY>");
            }
            return Ok((acc, p + 12));
        } else if match_lit(s, p, slen, "<ITEM>") {
            proof {
                reveal_strlit("<ITEM>");
            }
            match parse_children_at(s, p + 6, slen) {
                Err(e) => {
                    return Err(e);
                },
                Ok((item, q)) => {
                    let ghost a0 = acc@;
                    acc.push(item);
                    proof {
                        lemma_parse_children_bounds(s@, p as int + 6, empty_draft());
                        assert(acc@ == a0.push(item));
                        assert(acc@.map_values(|x: SerdeItem| x@) =~= a0.map_values(
                            |x: SerdeItem| x@,
                        ).push(item@));
                        assert(spec_parse_items(s@, i as int, a0.map_values(|x: SerdeItem| x@))
                            == spec_parse_items(s@, q as int, acc@.map_values(
                            |x: SerdeItem| x@,
                        )));
                    }
                    i = q;
                },
            }
        } else {
            return Err(DecodeError::Malformed);
        }
    }
}

/// Moves past the declaration's closing `?>`; mirrors [`skip_decl`].
fn skip_decl_at(s: &str, pos: usize, slen: usize) -> (r: Option<usize>)
    requires
        slen == s@.len(),
        pos <= slen,
    ensures
        (match r {
            Some(q) => q as int == skip_decl(s@, pos as int) && q <= slen,
            None => skip_decl(s@, pos as int) == -1,
        }),
{
    let mut i: usize = pos;
    loop
        invariant
            pos <= i <= slen,
            slen == s@.len(),
            skip_decl(s@, pos as int) == skip_decl(s@, i as int),
        decreases slen - i,
    {
        if slen - i >= 2 && s.get_char(i) == '?' && s.get_char(i + 1) == '>' {
            return Some(i + 2);
        }
        if i == slen {
            return None;
        }
        i = i + 1;
    }
}

/// Reads a whole document into the untyped container.
pub fn parse_document(s: &str) -> (r: Result<SerdeWantedList, DecodeError>)
    ensures
        (match r {
            Ok(sl) => spec_parse_document(s@) == Ok::<Seq<SerdeItemView>, DecodeErrorView>(sl@),
            Err(e) => spec_parse_document(s@) is Err && spec_parse_document(s@)->Err_0 == e@,
        }),
{
    let slen = s.unicode_len();
    let p0 = skip_ws_at(s, 0, slen);
    let p1 = if match_lit(s, p0, slen, "<?xml") {
        proof {
            reveal_strlit("<?xml");
        }
        match skip_decl_at(s, p0 + 5, slen) {
            Some(q) => q,
            None => {
                return Err(DecodeError::Malformed);
            },
        }
    } else {
        p0
    };
    let p2 = skip_ws_at(s, p1, slen);
    if match_lit(s, p2, slen, "<INVENTORY>") {
        proof {
            reveal_strlit("<INVENTORY>");
        }
        match parse_items_at(s, p2 + 11, slen) {
            Err(e) => Err(e),
            Ok((items, q)) => {
                let p3 = skip_ws_at(s, q, slen);
                if p3 == slen {
                    Ok(SerdeWantedList { items })
                } else {
                    Err(DecodeError::Malformed)
                }
            },
        }
    } else if match_lit(s, p2, slen, "<INVENTORY/>") {
        proof {
            reveal_strlit("<INVENTORY/>");
        }
        let p3 = skip_ws_at(s, p2 + 12, slen);
        if p3 == slen {
            let r = SerdeWantedList { items: Vec::new() };
            proof {
                assert(r@ =~= Seq::<SerdeItemView>::empty());
            }
            Ok(r)
        } else {
            Err(DecodeError::Malformed)
        }
    } else {
        Err(DecodeError::Malformed)
    }
}

/// Decodes document text into a typed wanted list: the wire structure is
/// read first, and each record is then typed against the code tables.
pub fn decode(s: &str) -> (r: Result<WantedList, DecodeError>)
    ensures
        (match spec_decode(s@) {
            Ok(ivs) => r is Ok && r->Ok_0@ == ivs,
            Err(e) => r is Err && r->Err_0@ == e,
        }),
{
    match parse_document(s) {
        Err(e) => Err(e),
        Ok(sl) => WantedList::from_serde(sl),
    }
}

} // verus!
