//! The wire writer: a wanted list rendered as its XML text.
//!
//! The output is exactly one `INVENTORY` element holding one `ITEM` element
//! per record in list order, each child element in its fixed order, with no
//! whitespace between tags, prefixed by the XML declaration.  Text content
//! is escaped: the five characters `& < > " '` travel as their named
//! entities.  The writer emits this shape directly, so no repair of the
//! produced text is needed; the two repair functions below fix the output
//! of a writer that wraps the items in one spurious pair of item tags.
use vstd::prelude::*;

use crate::errors::EncodeError;
use crate::numbers::{append_i8, append_u64, dec_digits, dec_i8};
use crate::text::push_char;
use crate::wanted::{
    opt_string_view, spec_serde_items, SerdeItem, SerdeItemView, SerdeWantedList, WantedList,
    ItemView,
};

verus! {

// ---------------------------------------------------------------------------
// The printed form, as specification
// ---------------------------------------------------------------------------

/// How one character travels inside text content.
pub open spec fn esc_char(c: char) -> Seq<char> {
    if c == '&' {
        seq!['&', 'a', 'm', 'p', ';']
    } else if c == '<' {
        seq!['&', 'l', 't', ';']
    } else if c == '>' {
        seq!['&', 'g', 't', ';']
    } else if c == '"' {
        seq!['&', 'q', 'u', 'o', 't', ';']
    } else if c == '\'' {
        seq!['&', 'a', 'p', 'o', 's', ';']
    } else {
        seq![c]
    }
}

/// Text content with every character escaped.
pub open spec fn escape(s: Seq<char>) -> Seq<char>
    decreases s.len(),
{
    if s.len() == 0 {
        Seq::empty()
    } else {
        esc_char(s[0]) + escape(s.skip(1))
    }
}

pub proof fn lemma_escape_snoc(t: Seq<char>, c: char)
    ensures
        escape(t.push(c)) == escape(t) + esc_char(c),
    decreases t.len(),
{
    if t.len() == 0 {
        assert(t.push(c)[0] == c);
        assert(t.push(c).skip(1) =~= Seq::<char>::empty());
        assert(escape(Seq::<char>::empty()) =~= Seq::<char>::empty());
        assert(escape(t.push(c)) == esc_char(c) + escape(Seq::<char>::empty()));
        assert(escape(t.push(c)) =~= escape(t) + esc_char(c));
    } else {
        assert(t.push(c)[0] == t[0]);
        assert(t.push(c).skip(1) =~= t.skip(1).push(c));
        lemma_escape_snoc(t.skip(1), c);
        assert(esc_char(t[0]) + (escape(t.skip(1)) + esc_char(c)) =~= (esc_char(t[0]) + escape(
            t.skip(1),
        )) + esc_char(c));
    }
}

/// A mandatory text element.
pub open spec fn text_elem(open_tag: Seq<char>, content: Seq<char>, close_tag: Seq<char>) -> Seq<
    char,
> {
    open_tag + escape(content) + close_tag
}

/// An optional text element: absent fields print nothing.
pub open spec fn opt_text_elem(
    open_tag: Seq<char>,
    content: Option<Seq<char>>,
    close_tag: Seq<char>,
) -> Seq<char> {
    match content {
        None => Seq::empty(),
        Some(t) => open_tag + escape(t) + close_tag,
    }
}

/// An optional unsigned numeric element.
pub open spec fn opt_u64_elem(open_tag: Seq<char>, v: Option<u64>, close_tag: Seq<char>) -> Seq<
    char,
> {
    match v {
        None => Seq::empty(),
        Some(n) => open_tag + dec_digits(n as nat) + close_tag,
    }
}

/// An optional signed color element.
pub open spec fn opt_i8_elem(open_tag: Seq<char>, v: Option<i8>, close_tag: Seq<char>) -> Seq<
    char,
> {
    match v {
        None => Seq::empty(),
        Some(n) => open_tag + dec_i8(n) + close_tag,
    }
}

/// One printed record: mandatory type and identifier, then each optional
/// child in its fixed order.
/// Everything of one printed record after its opening tag, closing tag
/// of the record itself at the end.
pub open spec fn print_item_body(sv: SerdeItemView) -> Seq<char> {
    text_elem("<ITEMTYPE>"@, sv.item_type, "</ITEMTYPE>"@) + text_elem(
        "<ITEMID>"@,
        sv.item_id,
        "</ITEMID>"@,
    ) + opt_i8_elem("<COLOR>"@, sv.color, "</COLOR>"@) + opt_text_elem(
        "<MAXPRICE>"@,
        sv.max_price,
        "</MAXPRICE>"@,
    ) + opt_u64_elem("<MINQTY>"@, sv.min_qty, "</MINQTY>"@) + opt_u64_elem(
        "<QTYFILLED>"@,
        sv.qty_filled,
        "</QTYFILLED>"@,
    ) + opt_text_elem("<CONDITION>"@, sv.condition, "</CONDITION>"@) + opt_text_elem(
        "<REMARKS>"@,
        sv.remarks,
        "</REMARKS>"@,
    ) + opt_text_elem("<NOTIFY>"@, sv.notify, "</NOTIFY>"@) + opt_text_elem(
        "<WANTEDSHOW>"@,
        sv.wanted_show,
        "</WANTEDSHOW>"@,
    ) + opt_text_elem("<WANTEDLISTID>"@, sv.wanted_list_id, "</WANTEDLISTID>"@) + "</ITEM>"@
}

pub open spec fn print_serde_item(sv: SerdeItemView) -> Seq<char> {
    "<ITEM>"@ + print_item_body(sv)
}

/// The printed records, in order.
pub open spec fn print_items(items: Seq<SerdeItemView>) -> Seq<char>
    decreases items.len(),
{
    if items.len() == 0 {
        Seq::empty()
    } else {
        print_serde_item(items[0]) + print_items(items.skip(1))
    }
}

pub proof fn lemma_print_items_snoc(items: Seq<SerdeItemView>)
    requires
        items.len() > 0,
    ensures
        print_items(items) == print_items(items.drop_last()) + print_serde_item(items.last()),
    decreases items.len(),
{
    if items.len() == 1 {
        assert(items.skip(1) =~= Seq::<SerdeItemView>::empty());
        assert(items.drop_last() =~= Seq::<SerdeItemView>::empty());
        assert(print_items(items) =~= print_items(items.drop_last()) + print_serde_item(
            items.last(),
        ));
    } else {
        let tail = items.skip(1);
        lemma_print_items_snoc(tail);
        assert(tail.drop_last() =~= items.drop_last().skip(1));
        assert(tail.last() == items.last());
        assert(items.drop_last()[0] == items[0]);
        assert(print_items(items.drop_last()) == print_serde_item(items[0]) + print_items(
            items.drop_last().skip(1),
        ));
        assert(print_serde_item(items[0]) + (print_items(items.drop_last().skip(1))
            + print_serde_item(items.last())) =~= (print_serde_item(items[0]) + print_items(
            items.drop_last().skip(1),
        )) + print_serde_item(items.last()));
    }
}

/// The declaration that prefixes every encoded document.
pub open spec fn xml_header() -> Seq<char> {
    "<?xml version=\"1.0\" encoding=\"UTF-8\"?>"@
}

/// The whole printed document.
pub open spec fn print_document(items: Seq<SerdeItemView>) -> Seq<char> {
    xml_header() + "<INVENTORY>"@ + print_items(items) + "</INVENTORY>"@
}

/// The encoded text of a typed list.
pub open spec fn spec_encode(items: Seq<ItemView>) -> Seq<char> {
    print_document(spec_serde_items(items))
}

// ---------------------------------------------------------------------------
// The executable writer
// ---------------------------------------------------------------------------

/// Appends text content, escaping as it goes.
fn append_escaped(out: &mut String, s: &str)
    ensures
        final(out)@ == old(out)@ + escape(s@),
{
    let slen = s.unicode_len();
    let mut i: usize = 0;
    proof {
        assert(s@.take(0) =~= Seq::<char>::empty());
        assert(out@ + escape(s@.take(0)) =~= out@);
    }
    while i < slen
        invariant
            i <= slen,
            slen == s@.len(),
            out@ == old(out)@ + escape(s@.take(i as int)),
        decreases slen - i,
    {
        let c = s.get_char(i);
        proof {
            assert(s@.take(i + 1).drop_last() =~= s@.take(i as int));
            assert(s@.take(i + 1) =~= s@.take(i as int).push(c));
            lemma_escape_snoc(s@.take(i as int), c);
        }
        if c == '&' {
            out.append("&amp;");
            proof {
                reveal_strlit("&amp;");
                assert("&amp;"@ =~= esc_char(c));
                assert(out@ =~= old(out)@ + escape(s@.take(i + 1)));
            }
        } else if c == '<' {
            out.append("&lt;");
            proof {
                reveal_strlit("&lt;");
                assert("&lt;"@ =~= esc_char(c));
                assert(out@ =~= old(out)@ + escape(s@.take(i + 1)));
            }
        } else if c == '>' {
            out.append("&gt;");
            proof {
                reveal_strlit("&gt;");
                assert("&gt;"@ =~= esc_char(c));
                assert(out@ =~= old(out)@ + escape(s@.take(i + 1)));
            }
        } else if c == '"' {
            out.append("&quot;");
            proof {
                reveal_strlit("&quot;");
                assert("&quot;"@ =~= esc_char(c));
                assert(out@ =~= old(out)@ + escape(s@.take(i + 1)));
            }
        } else if c == '\'' {
            out.append("&apos;");
            proof {
                reveal_strlit("&apos;");
                assert("&apos;"@ =~= esc_char(c));
                assert(out@ =~= old(out)@ + escape(s@.take(i + 1)));
            }
        } else {
            push_char(out, c);
            proof {
                assert(seq![c] =~= esc_char(c));
                assert(out@ =~= old(out)@ + escape(s@.take(i + 1)));
            }
        }
        i = i + 1;
    }
    proof {
        assert(s@.take(slen as int) =~= s@);
    }
}

/// Appends one mandatory text element.
fn append_text_elem(out: &mut String, open_tag: &str, content: &str, close_tag: &str)
    ensures
        final(out)@ == old(out)@ + text_elem(open_tag@, content@, close_tag@),
{
    out.append(open_tag);
    append_escaped(out, content);
    out.append(close_tag);
    proof {
        assert(out@ =~= old(out)@ + text_elem(open_tag@, content@, close_tag@));
    }
}

/// Appends one optional text element.
fn append_opt_text_elem(
    out: &mut String,
    open_tag: &str,
    content: &Option<String>,
    close_tag: &str,
)
    ensures
        final(out)@ == old(out)@ + opt_text_elem(open_tag@, opt_string_view(*content), close_tag@),
{
    match content {
        None => {
            proof {
                assert(out@ + opt_text_elem(open_tag@, opt_string_view(*content), close_tag@)
                    =~= out@);
            }
        },
        Some(t) => {
            append_text_elem(out, open_tag, t.as_str(), close_tag);
        },
    }
}

/// Appends one optional unsigned numeric element.
fn append_opt_u64_elem(out: &mut String, open_tag: &str, v: &Option<u64>, close_tag: &str)
    ensures
        final(out)@ == old(out)@ + opt_u64_elem(open_tag@, *v, close_tag@),
{
    match v {
        None => {
            proof {
                assert(out@ + opt_u64_elem(open_tag@, *v, close_tag@) =~= out@);
            }
        },
        Some(n) => {
            out.append(open_tag);
            append_u64(out, *n);
            out.append(close_tag);
        },
    }
}

/// Appends one optional color element.
fn append_opt_i8_elem(out: &mut String, open_tag: &str, v: &Option<i8>, close_tag: &str)
    ensures
        final(out)@ == old(out)@ + opt_i8_elem(open_tag@, *v, close_tag@),
{
    match v {
        None => {
            proof {
                assert(out@ + opt_i8_elem(open_tag@, *v, close_tag@) =~= out@);
            }
        },
        Some(n) => {
            out.append(open_tag);
            append_i8(out, *n);
            out.append(close_tag);
        },
    }
}

/// Appends one whole printed record.
#[verifier::rlimit(100)]
#[verifier::spinoff_prover]
fn print_item_into(out: &mut String, si: &SerdeItem)
    ensures
        final(out)@ == old(out)@ + print_serde_item(si@),
{
    let ghost o0 = out@;
    let ghost sv = si@;
    out.append("<ITEM>");
    append_text_elem(out, "<ITEMTYPE>", si.item_type.as_str(), "</ITEMTYPE>");
    append_text_elem(out, "<ITEMID>", si.item_id.as_str(), "</ITEMID>");
    append_opt_i8_elem(out, "<COLOR>", &si.color, "</COLOR>");
    append_opt_text_elem(out, "<MAXPRICE>", &si.max_price, "</MAXPRICE>");
    append_opt_u64_elem(out, "<MINQTY>", &si.min_qty, "</MINQTY>");
    append_opt_u64_elem(out, "<QTYFILLED>", &si.qty_filled, "</QTYFILLED>");
    append_opt_text_elem(out, "<CONDITION>", &si.condition, "</CONDITION>");
    append_opt_text_elem(out, "<REMARKS>", &si.remarks, "</REMARKS>");
    append_opt_text_elem(out, "<NOTIFY>", &si.notify, "</NOTIFY>");
    append_opt_text_elem(out, "<WANTEDSHOW>", &si.wanted_show, "</WANTEDSHOW>");
    append_opt_text_elem(out, "<WANTEDLISTID>", &si.wanted_list_id, "</WANTEDLISTID>");
    out.append("</ITEM>");
    proof {
        // peel the prefix off one segment at a time
        let s1 = "<ITEM>"@;
        let g2 = text_elem("<ITEMTYPE>"@, sv.item_type, "</ITEMTYPE>"@);
        let g3 = text_elem("<ITEMID>"@, sv.item_id, "</ITEMID>"@);
        let g4 = opt_i8_elem("<COLOR>"@, sv.color, "</COLOR>"@);
        let g5 = opt_text_elem("<MAXPRICE>"@, sv.max_price, "</MAXPRICE>"@);
        let g6 = opt_u64_elem("<MINQTY>"@, sv.min_qty, "</MINQTY>"@);
        let g7 = opt_u64_elem("<QTYFILLED>"@, sv.qty_filled, "</QTYFILLED>"@);
        let g8 = opt_text_elem("<CONDITION>"@, sv.condition, "</CONDITION>"@);
        let g9 = opt_text_elem("<REMARKS>"@, sv.remarks, "</REMARKS>"@);
        let g10 = opt_text_elem("<NOTIFY>"@, sv.notify, "</NOTIFY>"@);
        let g11 = opt_text_elem("<WANTEDSHOW>"@, sv.wanted_show, "</WANTEDSHOW>"@);
        let g12 = opt_text_elem("<WANTEDLISTID>"@, sv.wanted_list_id, "</WANTEDLISTID>"@);
        let s13 = "</ITEM>"@;
        let p0 = o0 + s1;
        let b3 = g2 + g3;
        let b4 = b3 + g4;
        let b5 = b4 + g5;
        let b6 = b5 + g6;
        let b7 = b6 + g7;
        let b8 = b7 + g8;
        let b9 = b8 + g9;
        let b10 = b9 + g10;
        let b11 = b10 + g11;
        let b12 = b11 + g12;
        let b13 = b12 + s13;
        assert(p0 + b3 =~= (p0 + g2) + g3);
        assert(p0 + b4 =~= (p0 + b3) + g4);
        assert(p0 + b5 =~= (p0 + b4) + g5);
        assert(p0 + b6 =~= (p0 + b5) + g6);
        assert(p0 + b7 =~= (p0 + b6) + g7);
        assert(p0 + b8 =~= (p0 + b7) + g8);
        assert(p0 + b9 =~= (p0 + b8) + g9);
        assert(p0 + b10 =~= (p0 + b9) + g10);
        assert(p0 + b11 =~= (p0 + b10) + g11);
        assert(p0 + b12 =~= (p0 + b11) + g12);
        assert(p0 + b13 =~= (p0 + b12) + s13);
        assert(print_item_body(sv) == b13);
        assert(o0 + (s1 + b13) =~= p0 + b13);
        assert(out@ == o0 + print_serde_item(sv));
    }
}

/// Renders a whole untyped list as the document text.
#[verifier::loop_isolation(false)]
pub fn print_serde(list: &SerdeWantedList) -> (r: String)
    ensures
        r@ == print_document(list@),
{
    let mut out = String::new();
    out.append("<?xml version=\"1.0\" encoding=\"UTF-8\"?>");
    out.append("<INVENTORY>");
    let n = list.items.len();
    let mut i: usize = 0;
    proof {
        assert(list@.take(0) =~= Seq::<SerdeItemView>::empty());
        assert(out@ =~= xml_header() + "<INVENTORY>"@ + print_items(list@.take(0)));
    }
    while i < n
        invariant
            i <= n,
            n == list.items.len(),
            out@ == xml_header() + "<INVENTORY>"@ + print_items(list@.take(i as int)),
        decreases n - i,
    {
        print_item_into(&mut out, &list.items[i]);
        proof {
            assert(list.items[i as int]@ == list@[i as int]) by {
                assert(list@[i as int] == list.items@.map_values(
                    |x: SerdeItem| x@,
                )[i as int]);
            }
            assert(list@.take(i + 1).drop_last() =~= list@.take(i as int));
            assert(list@.take(i + 1).last() == list@[i as int]);
            lemma_print_items_snoc(list@.take(i + 1));
            assert(out@ =~= xml_header() + "<INVENTORY>"@ + print_items(list@.take(i + 1)));
        }
        i = i + 1;
    }
    out.append("</INVENTORY>");
    proof {
        assert(list@.take(n as int) =~= list@);
        assert(out@ =~= print_document(list@));
    }
    out
}

/// Encodes a typed list as its document text.  Encoding cannot fail; the
/// error side is reserved for writer-level failures and never produced.
pub fn encode(list: &WantedList) -> (r: Result<String, EncodeError>)
    ensures
        r is Ok,
        r matches Ok(s) ==> s@ == spec_encode(list@),
{
    let serde_list = SerdeWantedList::from_wanted(list);
    let text = print_serde(&serde_list);
    Ok(text)
}

// ---------------------------------------------------------------------------
// Repair of a writer that wraps the items in one spurious tag pair
// ---------------------------------------------------------------------------

impl SerdeWantedList {
    /// Repairs the output of a list writer that emits one redundant item
    /// tag pair just inside the container — six characters after the
    /// container's opening tag and seven just before its closing tag — and
    /// prepends the declaration.  The input must be at least as long as the
    /// shortest such defective document.
    pub fn amend_serialized_string(serde_string: String) -> (r: String)
        requires
            serde_string@.len() >= 36,
        ensures
            r@ == xml_header() + serde_string@.subrange(0, 11) + serde_string@.subrange(
                17,
                serde_string@.len() - 19,
            ) + serde_string@.subrange(serde_string@.len() - 12, serde_string@.len() as int),
    {
        let s = serde_string.as_str();
        let len = s.unicode_len();
        let part1 = s.substring_char(0, 11);
        let part2 = s.substring_char(17, len - 19);
        let part3 = s.substring_char(len - 12, len);
        let mut out = String::new();
        out.append("<?xml version=\"1.0\" encoding=\"UTF-8\"?>");
        out.append(part1);
        out.append(part2);
        out.append(part3);
        proof {
            assert(out@ =~= xml_header() + serde_string@.subrange(0, 11)
                + serde_string@.subrange(17, serde_string@.len() - 19) + serde_string@.subrange(
                serde_string@.len() - 12,
                serde_string@.len() as int,
            ));
        }
        out
    }
}

} // verus!
