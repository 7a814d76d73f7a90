//! The typed model of a Bricklink wanted list.
//!
//! A [`WantedList`] is an ordered sequence of [`Item`]s.  Every field of an
//! item beyond its type and catalog identifier is optional.  The wire format
//! can carry only flat text and numbers, so the typed item has an untyped
//! mirror, [`SerdeItem`], and the two conversions between them live here as
//! well.  Enumerated fields travel as fixed single-letter codes; the code
//! tables are bijective and the conversions reject any code outside them.
use vstd::prelude::*;

use crate::errors::{res_view, DecodeError, DecodeErrorView, WireField};
use crate::numbers::{
    digit_of_char, dec_i8, digit_char, digit_val, is_digit, parse_u64_at, price_text,
    spec_parse_price, append_u64,
};
use crate::text::{char_to_string, push_char};

verus! {

/// The category of a catalog item.
#[derive(Clone, Copy, Debug, PartialEq, Eq, Structural)]
pub enum ItemType {
    SetItem,
    Part,
    Minifig,
    Book,
    Gear,
    Catalog,
    Instruction,
    OriginalBox,
    UnsortedLot,
}

/// The condition wanted for an item.
#[derive(Clone, Copy, Debug, PartialEq, Eq, Structural)]
pub enum Condition {
    New,
    Used,
    Complete,
    Incomplete,
    Sealed,
    NotProvided,
}

/// Whether to be notified when a matching item is listed for sale.
#[derive(Clone, Copy, Debug, PartialEq, Eq, Structural)]
pub enum Notify {
    Y,
    N,
}

/// Whether the item shows up in for-sale queries.
#[derive(Clone, Copy, Debug, PartialEq, Eq, Structural)]
pub enum WantedShow {
    Y,
    N,
}

/// The canonical catalog item number.
#[derive(Clone, Debug, Eq, PartialEq, Hash, PartialOrd, Ord)]
pub struct ItemID(pub String);

impl View for ItemID {
    type V = Seq<char>;

    open spec fn view(&self) -> Seq<char> {
        self.0@
    }
}

/// Color code from the Bricklink color catalog.
#[derive(Clone, Copy, Debug, Eq, PartialEq, Hash, PartialOrd, Ord, Structural)]
pub struct Color(pub i8);

/// Maximum desired price, held as a whole number of hundredths so that the
/// two fractional digits of the wire format are carried exactly.
#[derive(Clone, Copy, Debug, PartialEq, Eq, Structural)]
pub struct MaxPrice(pub i64);

/// Minimum desired quantity.
#[derive(Clone, Copy, Debug, PartialEq, Eq, Structural)]
pub struct MinQty(pub u64);

/// Quantity already acquired.
#[derive(Clone, Copy, Debug, PartialEq, Eq, Structural)]
pub struct QtyFilled(pub u64);

/// Free-text notes on the item.
#[derive(Clone, Debug, PartialEq, Eq)]
pub struct Remarks(pub String);

impl View for Remarks {
    type V = Seq<char>;

    open spec fn view(&self) -> Seq<char> {
        self.0@
    }
}

/// Grouping tag naming the wanted list an item belongs to.
#[derive(Clone, Debug, PartialEq, Eq)]
pub struct WantedListID(String);

impl View for WantedListID {
    type V = Seq<char>;

    closed spec fn view(&self) -> Seq<char> {
        self.0@
    }
}

impl WantedListID {
    /// Wraps a raw identifier string.
    pub fn new(id: String) -> (r: WantedListID)
        ensures
            r@ == id@,
    {
        WantedListID(id)
    }
}

/// A single catalog item of a wanted list.
#[derive(Clone, Debug, PartialEq)]
pub struct Item {
    pub item_type: ItemType,
    pub item_id: ItemID,
    pub color: Option<Color>,
    pub max_price: Option<MaxPrice>,
    pub min_qty: Option<MinQty>,
    pub qty_filled: Option<QtyFilled>,
    pub condition: Option<Condition>,
    pub remarks: Option<Remarks>,
    pub notify: Option<Notify>,
    pub wanted_show: Option<WantedShow>,
    pub wanted_list_id: Option<WantedListID>,
}

/// Mathematical image of an [`Item`]: strings become character sequences,
/// newtypes become their payloads.
#[verifier::ext_equal]
pub struct ItemView {
    pub item_type: ItemType,
    pub item_id: Seq<char>,
    pub color: Option<i8>,
    pub max_price: Option<i64>,
    pub min_qty: Option<u64>,
    pub qty_filled: Option<u64>,
    pub condition: Option<Condition>,
    pub remarks: Option<Seq<char>>,
    pub notify: Option<Notify>,
    pub wanted_show: Option<WantedShow>,
    pub wanted_list_id: Option<Seq<char>>,
}

impl View for Item {
    type V = ItemView;

    open spec fn view(&self) -> ItemView {
        ItemView {
            item_type: self.item_type,
            item_id: self.item_id@,
            color: match self.color {
                Some(c) => Some(c.0),
                None => None,
            },
            max_price: match self.max_price {
                Some(p) => Some(p.0),
                None => None,
            },
            min_qty: match self.min_qty {
                Some(q) => Some(q.0),
                None => None,
            },
            qty_filled: match self.qty_filled {
                Some(q) => Some(q.0),
                None => None,
            },
            condition: self.condition,
            remarks: match self.remarks {
                Some(r) => Some(r.0@),
                None => None,
            },
            notify: self.notify,
            wanted_show: self.wanted_show,
            wanted_list_id: match self.wanted_list_id {
                Some(w) => Some(w@),
                None => None,
            },
        }
    }
}

impl Item {
    /// Builds an item with the given type, identifier, color and quantity,
    /// and every other field absent.  A convenient test-data generator.
    pub fn build_test_item(
        item_type: ItemType,
        item_id: ItemID,
        color: Option<Color>,
        min_qty: Option<MinQty>,
    ) -> (r: Item)
        ensures
            r@ == (ItemView {
                item_type: item_type,
                item_id: item_id@,
                color: match color {
                    Some(c) => Some(c.0),
                    None => None,
                },
                max_price: None,
                min_qty: match min_qty {
                    Some(q) => Some(q.0),
                    None => None,
                },
                qty_filled: None,
                condition: None,
                remarks: None,
                notify: None,
                wanted_show: None,
                wanted_list_id: None,
            }),
    {
        Item {
            item_type,
            item_id,
            color,
            min_qty,
            max_price: None,
            qty_filled: None,
            condition: None,
            remarks: None,
            notify: None,
            wanted_show: None,
            wanted_list_id: None,
        }
    }

    /// Copies an item field by field; unlike a derived clone, the copy is
    /// known to equal the original.
    pub fn duplicate(&self) -> (r: Item)
        ensures
            r == *self,
    {
        Item {
            item_type: self.item_type,
            item_id: ItemID(self.item_id.0.clone()),
            color: self.color,
            max_price: self.max_price,
            min_qty: self.min_qty,
            qty_filled: self.qty_filled,
            condition: self.condition,
            remarks: match &self.remarks {
                Some(r) => Some(Remarks(r.0.clone())),
                None => None,
            },
            notify: self.notify,
            wanted_show: self.wanted_show,
            wanted_list_id: match &self.wanted_list_id {
                Some(w) => Some(WantedListID(w.0.clone())),
                None => None,
            },
        }
    }
}

/// An ordered list of wanted items.
#[derive(Debug, PartialEq)]
pub struct WantedList {
    pub items: Vec<Item>,
}

impl View for WantedList {
    type V = Seq<ItemView>;

    open spec fn view(&self) -> Seq<ItemView> {
        self.items@.map_values(|i: Item| i@)
    }
}

/// The untyped mirror of an [`Item`]: exactly what the wire format can
/// carry, with enumerations as code strings and the price as decimal text.
#[derive(Clone, Debug, PartialEq)]
pub struct SerdeItem {
    pub item_type: String,
    pub item_id: String,
    pub color: Option<i8>,
    pub max_price: Option<String>,
    pub min_qty: Option<u64>,
    pub qty_filled: Option<u64>,
    pub condition: Option<String>,
    pub remarks: Option<String>,
    pub notify: Option<String>,
    pub wanted_show: Option<String>,
    pub wanted_list_id: Option<String>,
}

/// Mathematical image of a [`SerdeItem`].
#[verifier::ext_equal]
pub struct SerdeItemView {
    pub item_type: Seq<char>,
    pub item_id: Seq<char>,
    pub color: Option<i8>,
    pub max_price: Option<Seq<char>>,
    pub min_qty: Option<u64>,
    pub qty_filled: Option<u64>,
    pub condition: Option<Seq<char>>,
    pub remarks: Option<Seq<char>>,
    pub notify: Option<Seq<char>>,
    pub wanted_show: Option<Seq<char>>,
    pub wanted_list_id: Option<Seq<char>>,
}

pub open spec fn opt_string_view(s: Option<String>) -> Option<Seq<char>> {
    match s {
        Some(t) => Some(t@),
        None => None,
    }
}

impl View for SerdeItem {
    type V = SerdeItemView;

    open spec fn view(&self) -> SerdeItemView {
        SerdeItemView {
            item_type: self.item_type@,
            item_id: self.item_id@,
            color: self.color,
            max_price: opt_string_view(self.max_price),
            min_qty: self.min_qty,
            qty_filled: self.qty_filled,
            condition: opt_string_view(self.condition),
            remarks: opt_string_view(self.remarks),
            notify: opt_string_view(self.notify),
            wanted_show: opt_string_view(self.wanted_show),
            wanted_list_id: opt_string_view(self.wanted_list_id),
        }
    }
}

/// The untyped mirror of a whole list.
#[derive(Debug, PartialEq)]
pub struct SerdeWantedList {
    pub items: Vec<SerdeItem>,
}

impl View for SerdeWantedList {
    type V = Seq<SerdeItemView>;

    open spec fn view(&self) -> Seq<SerdeItemView> {
        self.items@.map_values(|i: SerdeItem| i@)
    }
}

// ---------------------------------------------------------------------------
// Enumeration code tables
// ---------------------------------------------------------------------------

/// The single-letter wire code of an item type.
pub open spec fn item_type_code(t: ItemType) -> char {
    match t {
        ItemType::SetItem => 'S',
        ItemType::Part => 'P',
        ItemType::Minifig => 'M',
        ItemType::Book => 'B',
        ItemType::Gear => 'G',
        ItemType::Catalog => 'C',
        ItemType::Instruction => 'I',
        ItemType::OriginalBox => 'O',
        ItemType::UnsortedLot => 'U',
    }
}

/// The item type named by a wire code, or the decode error it raises.
pub open spec fn spec_item_type_of_code(s: Seq<char>) -> Result<ItemType, DecodeErrorView> {
    if s.len() == 1 && s[0] == 'S' {
        Ok(ItemType::SetItem)
    } else if s.len() == 1 && s[0] == 'P' {
        Ok(ItemType::Part)
    } else if s.len() == 1 && s[0] == 'M' {
        Ok(ItemType::Minifig)
    } else if s.len() == 1 && s[0] == 'B' {
        Ok(ItemType::Book)
    } else if s.len() == 1 && s[0] == 'G' {
        Ok(ItemType::Gear)
    } else if s.len() == 1 && s[0] == 'C' {
        Ok(ItemType::Catalog)
    } else if s.len() == 1 && s[0] == 'I' {
        Ok(ItemType::Instruction)
    } else if s.len() == 1 && s[0] == 'O' {
        Ok(ItemType::OriginalBox)
    } else if s.len() == 1 && s[0] == 'U' {
        Ok(ItemType::UnsortedLot)
    } else {
        Err(DecodeErrorView::InvalidCode { field: WireField::ItemType, raw: s })
    }
}

impl ItemType {
    /// The wire code of this item type, as a character.
    pub fn to_code_char(&self) -> (c: char)
        ensures
            c == item_type_code(*self),
    {
        match self {
            ItemType::SetItem => 'S',
            ItemType::Part => 'P',
            ItemType::Minifig => 'M',
            ItemType::Book => 'B',
            ItemType::Gear => 'G',
            ItemType::Catalog => 'C',
            ItemType::Instruction => 'I',
            ItemType::OriginalBox => 'O',
            ItemType::UnsortedLot => 'U',
        }
    }

    /// The wire code of this item type, as a one-letter string.
    pub fn to_code(&self) -> (r: String)
        ensures
            r@ == seq![item_type_code(*self)],
    {
        char_to_string(self.to_code_char())
    }

    /// Reads a wire code back into an item type; any string outside the
    /// code table is rejected, naming the field and the raw value.
    pub fn from_code(s: &str) -> (r: Result<ItemType, DecodeError>)
        ensures
            res_view(r) == spec_item_type_of_code(s@),
    {
        if s.unicode_len() == 1 {
            let c = s.get_char(0);
            if c == 'S' {
                Ok(ItemType::SetItem)
            } else if c == 'P' {
                Ok(ItemType::Part)
            } else if c == 'M' {
                Ok(ItemType::Minifig)
            } else if c == 'B' {
                Ok(ItemType::Book)
            } else if c == 'G' {
                Ok(ItemType::Gear)
            } else if c == 'C' {
                Ok(ItemType::Catalog)
            } else if c == 'I' {
                Ok(ItemType::Instruction)
            } else if c == 'O' {
                Ok(ItemType::OriginalBox)
            } else if c == 'U' {
                Ok(ItemType::UnsortedLot)
            } else {
                Err(DecodeError::InvalidCode { field: WireField::ItemType, raw: s.to_owned() })
            }
        } else {
            Err(DecodeError::InvalidCode { field: WireField::ItemType, raw: s.to_owned() })
        }
    }
}

/// The single-letter wire code of a condition.
pub open spec fn condition_code(c: Condition) -> char {
    match c {
        Condition::New => 'N',
        Condition::Used => 'U',
        Condition::Complete => 'C',
        Condition::Incomplete => 'I',
        Condition::Sealed => 'S',
        Condition::NotProvided => 'X',
    }
}

/// The condition named by a wire code, or the decode error it raises.
pub open spec fn spec_condition_of_code(s: Seq<char>) -> Result<Condition, DecodeErrorView> {
    if s.len() == 1 && s[0] == 'N' {
        Ok(Condition::New)
    } else if s.len() == 1 && s[0] == 'U' {
        Ok(Condition::Used)
    } else if s.len() == 1 && s[0] == 'C' {
        Ok(Condition::Complete)
    } else if s.len() == 1 && s[0] == 'I' {
        Ok(Condition::Incomplete)
    } else if s.len() == 1 && s[0] == 'S' {
        Ok(Condition::Sealed)
    } else if s.len() == 1 && s[0] == 'X' {
        Ok(Condition::NotProvided)
    } else {
        Err(DecodeErrorView::InvalidCode { field: WireField::Condition, raw: s })
    }
}

impl Condition {
    /// The wire code of this condition, as a character.
    pub fn to_code_char(&self) -> (c: char)
        ensures
            c == condition_code(*self),
    {
        match self {
            Condition::New => 'N',
            Condition::Used => 'U',
            Condition::Complete => 'C',
            Condition::Incomplete => 'I',
            Condition::Sealed => 'S',
            Condition::NotProvided => 'X',
        }
    }

    /// The wire code of this condition, as a one-letter string.
    pub fn to_code(&self) -> (r: String)
        ensures
            r@ == seq![condition_code(*self)],
    {
        char_to_string(self.to_code_char())
    }

    /// Reads a wire code back into a condition.
    pub fn from_code(s: &str) -> (r: Result<Condition, DecodeError>)
        ensures
            res_view(r) == spec_condition_of_code(s@),
    {
        if s.unicode_len() == 1 {
            let c = s.get_char(0);
            if c == 'N' {
                Ok(Condition::New)
            } else if c == 'U' {
                Ok(Condition::Used)
            } else if c == 'C' {
                Ok(Condition::Complete)
            } else if c == 'I' {
                Ok(Condition::Incomplete)
            } else if c == 'S' {
                Ok(Condition::Sealed)
            } else if c == 'X' {
                Ok(Condition::NotProvided)
            } else {
                Err(DecodeError::InvalidCode { field: WireField::Condition, raw: s.to_owned() })
            }
        } else {
            Err(DecodeError::InvalidCode { field: WireField::Condition, raw: s.to_owned() })
        }
    }
}

/// The wire code of a notify flag.
pub open spec fn notify_code(n: Notify) -> char {
    match n {
        Notify::Y => 'Y',
        Notify::N => 'N',
    }
}

/// The notify flag named by a wire code, or the decode error it raises.
pub open spec fn spec_notify_of_code(s: Seq<char>) -> Result<Notify, DecodeErrorView> {
    if s.len() == 1 && s[0] == 'Y' {
        Ok(Notify::Y)
    } else if s.len() == 1 && s[0] == 'N' {
        Ok(Notify::N)
    } else {
        Err(DecodeErrorView::InvalidCode { field: WireField::Notify, raw: s })
    }
}

impl Notify {
    /// The wire code of this flag, as a character.
    pub fn to_code_char(&self) -> (c: char)
        ensures
            c == notify_code(*self),
    {
        match self {
            Notify::Y => 'Y',
            Notify::N => 'N',
        }
    }

    /// The wire code of this flag, as a one-letter string.
    pub fn to_code(&self) -> (r: String)
        ensures
            r@ == seq![notify_code(*self)],
    {
        char_to_string(self.to_code_char())
    }

    /// Reads a wire code back into a notify flag.
    pub fn from_code(s: &str) -> (r: Result<Notify, DecodeError>)
        ensures
            res_view(r) == spec_notify_of_code(s@),
    {
        if s.unicode_len() == 1 {
            let c = s.get_char(0);
            if c == 'Y' {
                Ok(Notify::Y)
            } else if c == 'N' {
                Ok(Notify::N)
            } else {
                Err(DecodeError::InvalidCode { field: WireField::Notify, raw: s.to_owned() })
            }
        } else {
            Err(DecodeError::InvalidCode { field: WireField::Notify, raw: s.to_owned() })
        }
    }
}

/// The wire code of a wanted-show flag.
pub open spec fn wanted_show_code(w: WantedShow) -> char {
    match w {
        WantedShow::Y => 'Y',
        WantedShow::N => 'N',
    }
}

/// The wanted-show flag named by a wire code, or the decode error it raises.
pub open spec fn spec_wanted_show_of_code(s: Seq<char>) -> Result<WantedShow, DecodeErrorView> {
    if s.len() == 1 && s[0] == 'Y' {
        Ok(WantedShow::Y)
    } else if s.len() == 1 && s[0] == 'N' {
        Ok(WantedShow::N)
    } else {
        Err(DecodeErrorView::InvalidCode { field: WireField::WantedShow, raw: s })
    }
}

impl WantedShow {
    /// The wire code of this flag, as a character.
    pub fn to_code_char(&self) -> (c: char)
        ensures
            c == wanted_show_code(*self),
    {
        match self {
            WantedShow::Y => 'Y',
            WantedShow::N => 'N',
        }
    }

    /// The wire code of this flag, as a one-letter string.
    pub fn to_code(&self) -> (r: String)
        ensures
            r@ == seq![wanted_show_code(*self)],
    {
        char_to_string(self.to_code_char())
    }

    /// Reads a wire code back into a wanted-show flag.
    pub fn from_code(s: &str) -> (r: Result<WantedShow, DecodeError>)
        ensures
            res_view(r) == spec_wanted_show_of_code(s@),
    {
        if s.unicode_len() == 1 {
            let c = s.get_char(0);
            if c == 'Y' {
                Ok(WantedShow::Y)
            } else if c == 'N' {
                Ok(WantedShow::N)
            } else {
                Err(DecodeError::InvalidCode { field: WireField::WantedShow, raw: s.to_owned() })
            }
        } else {
            Err(DecodeError::InvalidCode { field: WireField::WantedShow, raw: s.to_owned() })
        }
    }
}

// ---------------------------------------------------------------------------
// Price text
// ---------------------------------------------------------------------------

impl MaxPrice {
    /// Renders the price as wire text with exactly two fractional digits.
    pub fn to_wire(&self) -> (r: String)
        ensures
            r@ == price_text(self.0),
    {
        let h = self.0;
        let mut out = String::new();
        let mag: u64 = if h >= 0 {
            h as u64
        } else {
            (-(h as i128)) as u64
        };
        proof {
            assert(mag as int == (if h < 0 {
                -(h as int)
            } else {
                h as int
            }));
        }
        if h < 0 {
            push_char(&mut out, '-');
        }
        append_u64(&mut out, mag / 100);
        push_char(&mut out, '.');
        let r100 = mag % 100;
        push_char(&mut out, crate::numbers::digit_to_char(r100 / 10));
        push_char(&mut out, crate::numbers::digit_to_char(r100 % 10));
        proof {
            assert(out@ =~= price_text(h));
        }
        out
    }

    /// Parses wire price text into hundredths; anything that is not a
    /// decimal number with at most two fractional digits, or that does not
    /// fit, is rejected with the raw text.
    pub fn from_wire(s: &str) -> (r: Result<MaxPrice, DecodeError>)
        ensures
            (match spec_parse_price(s@) {
                Some(h) => r is Ok && r->Ok_0 == MaxPrice(h),
                None => r is Err && r->Err_0@ == (DecodeErrorView::InvalidPrice { raw: s@ }),
            }),
    {
        let slen = s.unicode_len();
        let neg = slen > 0 && s.get_char(0) == '-';
        let start: usize = if neg {
            1
        } else {
            0
        };
        match parse_u64_at(s, start, slen) {
            None => Err(DecodeError::InvalidPrice { raw: s.to_owned() }),
            Some((ip, p)) => {
                let mut mag_opt: Option<u128> = None;
                if p == slen {
                    mag_opt = Some(ip as u128 * 100);
                } else if s.get_char(p) == '.' {
                    if p + 1 < slen {
                        match digit_of_char(s.get_char(p + 1)) {
                            Some(d1) => {
                                if p + 2 == slen {
                                    mag_opt = Some(ip as u128 * 100 + d1 as u128 * 10);
                                } else if p + 3 == slen {
                                    match digit_of_char(s.get_char(p + 2)) {
                                        Some(d2) => {
                                            mag_opt = Some(
                                                ip as u128 * 100 + d1 as u128 * 10 + d2 as u128,
                                            );
                                        },
                                        None => {},
                                    }
                                }
                            },
                            None => {},
                        }
                    }
                }
                match mag_opt {
                    None => Err(DecodeError::InvalidPrice { raw: s.to_owned() }),
                    Some(mag) => {
                        if neg {
                            if mag <= 9223372036854775808u128 {
                                Ok(MaxPrice((-(mag as i128)) as i64))
                            } else {
                                Err(DecodeError::InvalidPrice { raw: s.to_owned() })
                            }
                        } else {
                            if mag <= 9223372036854775807u128 {
                                Ok(MaxPrice(mag as i64))
                            } else {
                                Err(DecodeError::InvalidPrice { raw: s.to_owned() })
                            }
                        }
                    },
                }
            },
        }
    }
}

// ---------------------------------------------------------------------------
// Record conversions between the typed and the untyped mirror
// ---------------------------------------------------------------------------

/// The untyped image of a typed item: enumerations become their codes, the
/// price becomes decimal text, everything else is carried as it is.
pub open spec fn spec_serde_of_item(iv: ItemView) -> SerdeItemView {
    SerdeItemView {
        item_type: seq![item_type_code(iv.item_type)],
        item_id: iv.item_id,
        color: iv.color,
        max_price: match iv.max_price {
            Some(h) => Some(price_text(h)),
            None => None,
        },
        min_qty: iv.min_qty,
        qty_filled: iv.qty_filled,
        condition: match iv.condition {
            Some(c) => Some(seq![condition_code(c)]),
            None => None,
        },
        remarks: iv.remarks,
        notify: match iv.notify {
            Some(n) => Some(seq![notify_code(n)]),
            None => None,
        },
        wanted_show: match iv.wanted_show {
            Some(w) => Some(seq![wanted_show_code(w)]),
            None => None,
        },
        wanted_list_id: iv.wanted_list_id,
    }
}

pub open spec fn spec_opt_price(o: Option<Seq<char>>) -> Result<Option<i64>, DecodeErrorView> {
    match o {
        None => Ok(None),
        Some(s) => match spec_parse_price(s) {
            Some(h) => Ok(Some(h)),
            None => Err(DecodeErrorView::InvalidPrice { raw: s }),
        },
    }
}

pub open spec fn spec_opt_condition(o: Option<Seq<char>>) -> Result<
    Option<Condition>,
    DecodeErrorView,
> {
    match o {
        None => Ok(None),
        Some(s) => match spec_condition_of_code(s) {
            Ok(c) => Ok(Some(c)),
            Err(e) => Err(e),
        },
    }
}

pub open spec fn spec_opt_notify(o: Option<Seq<char>>) -> Result<Option<Notify>, DecodeErrorView> {
    match o {
        None => Ok(None),
        Some(s) => match spec_notify_of_code(s) {
            Ok(n) => Ok(Some(n)),
            Err(e) => Err(e),
        },
    }
}

pub open spec fn spec_opt_wanted_show(o: Option<Seq<char>>) -> Result<
    Option<WantedShow>,
    DecodeErrorView,
> {
    match o {
        None => Ok(None),
        Some(s) => match spec_wanted_show_of_code(s) {
            Ok(w) => Ok(Some(w)),
            Err(e) => Err(e),
        },
    }
}

/// The typed item named by an untyped record, or the first decode error in
/// field order: item type, then price, condition, notify, wanted-show.
pub open spec fn spec_item_of_serde(sv: SerdeItemView) -> Result<ItemView, DecodeErrorView> {
    match spec_item_type_of_code(sv.item_type) {
        Err(e) => Err(e),
        Ok(t) => match spec_opt_price(sv.max_price) {
            Err(e) => Err(e),
            Ok(mp) => match spec_opt_condition(sv.condition) {
                Err(e) => Err(e),
                Ok(cond) => match spec_opt_notify(sv.notify) {
                    Err(e) => Err(e),
                    Ok(ny) => match spec_opt_wanted_show(sv.wanted_show) {
                        Err(e) => Err(e),
                        Ok(ws) => Ok(
                            ItemView {
                                item_type: t,
                                item_id: sv.item_id,
                                color: sv.color,
                                max_price: mp,
                                min_qty: sv.min_qty,
                                qty_filled: sv.qty_filled,
                                condition: cond,
                                remarks: sv.remarks,
                                notify: ny,
                                wanted_show: ws,
                                wanted_list_id: sv.wanted_list_id,
                            },
                        ),
                    },
                },
            },
        },
    }
}

impl Item {
    /// Types an untyped wire record, rejecting any enumeration code or
    /// price text outside the format.
    pub fn from_serde(si: SerdeItem) -> (r: Result<Item, DecodeError>)
        ensures
            (match spec_item_of_serde(si@) {
                Ok(iv) => r is Ok && r->Ok_0@ == iv,
                Err(e) => r is Err && r->Err_0@ == e,
            }),
    {
        let item_type = match ItemType::from_code(si.item_type.as_str()) {
            Ok(t) => t,
            Err(e) => {
                return Err(e);
            },
        };
        let max_price = match si.max_price {
            None => None,
            Some(p) => match MaxPrice::from_wire(p.as_str()) {
                Ok(mp) => Some(mp),
                Err(e) => {
                    return Err(e);
                },
            },
        };
        let condition = match si.condition {
            None => None,
            Some(c) => match Condition::from_code(c.as_str()) {
                Ok(cc) => Some(cc),
                Err(e) => {
                    return Err(e);
                },
            },
        };
        let notify = match si.notify {
            None => None,
            Some(n) => match Notify::from_code(n.as_str()) {
                Ok(nn) => Some(nn),
                Err(e) => {
                    return Err(e);
                },
            },
        };
        let wanted_show = match si.wanted_show {
            None => None,
            Some(w) => match WantedShow::from_code(w.as_str()) {
                Ok(ww) => Some(ww),
                Err(e) => {
                    return Err(e);
                },
            },
        };
        let item = Item {
            item_type,
            item_id: ItemID(si.item_id),
            color: match si.color {
                Some(c) => Some(Color(c)),
                None => None,
            },
            max_price,
            min_qty: match si.min_qty {
                Some(q) => Some(MinQty(q)),
                None => None,
            },
            qty_filled: match si.qty_filled {
                Some(q) => Some(QtyFilled(q)),
                None => None,
            },
            condition,
            remarks: match si.remarks {
                Some(r) => Some(Remarks(r)),
                None => None,
            },
            notify,
            wanted_show,
            wanted_list_id: match si.wanted_list_id {
                Some(w) => Some(WantedListID(w)),
                None => None,
            },
        };
        proof {
            assert(spec_item_of_serde(si@) is Ok);
            assert(item@ =~= spec_item_of_serde(si@)->Ok_0);
        }
        Ok(item)
    }
}

impl SerdeItem {
    /// Flattens a typed item into its untyped wire record.
    pub fn from_item(item: Item) -> (r: SerdeItem)
        ensures
            r@ == spec_serde_of_item(item@),
    {
        let r = SerdeItem {
            item_type: item.item_type.to_code(),
            item_id: item.item_id.0,
            color: match item.color {
                Some(c) => Some(c.0),
                None => None,
            },
            max_price: match item.max_price {
                Some(p) => Some(p.to_wire()),
                None => None,
            },
            min_qty: match item.min_qty {
                Some(q) => Some(q.0),
                None => None,
            },
            qty_filled: match item.qty_filled {
                Some(q) => Some(q.0),
                None => None,
            },
            condition: match item.condition {
                Some(c) => Some(c.to_code()),
                None => None,
            },
            remarks: match item.remarks {
                Some(rm) => Some(rm.0),
                None => None,
            },
            notify: match item.notify {
                Some(n) => Some(n.to_code()),
                None => None,
            },
            wanted_show: match item.wanted_show {
                Some(w) => Some(w.to_code()),
                None => None,
            },
            wanted_list_id: match item.wanted_list_id {
                Some(w) => Some(w.0),
                None => None,
            },
        };
        proof {
            assert(r@ =~= spec_serde_of_item(item@));
        }
        r
    }

    /// Copies a wire record field by field; the copy is known to equal the
    /// original.
    pub fn duplicate(&self) -> (r: SerdeItem)
        ensures
            r == *self,
    {
        SerdeItem {
            item_type: self.item_type.clone(),
            item_id: self.item_id.clone(),
            color: self.color,
            max_price: match &self.max_price {
                Some(p) => Some(p.clone()),
                None => None,
            },
            min_qty: self.min_qty,
            qty_filled: self.qty_filled,
            condition: match &self.condition {
                Some(c) => Some(c.clone()),
                None => None,
            },
            remarks: match &self.remarks {
                Some(r) => Some(r.clone()),
                None => None,
            },
            notify: match &self.notify {
                Some(n) => Some(n.clone()),
                None => None,
            },
            wanted_show: match &self.wanted_show {
                Some(w) => Some(w.clone()),
                None => None,
            },
            wanted_list_id: match &self.wanted_list_id {
                Some(w) => Some(w.clone()),
                None => None,
            },
        }
    }
}

/// Typing the untyped image of any typed item gives the item back: the code
/// tables are bijective and price text parses to the same hundredths.
pub proof fn lemma_item_codec_roundtrip(iv: ItemView)
    ensures
        spec_item_of_serde(spec_serde_of_item(iv)) == Ok::<ItemView, DecodeErrorView>(iv),
{
    let sv = spec_serde_of_item(iv);
    assert(spec_item_type_of_code(sv.item_type) == Ok::<ItemType, DecodeErrorView>(iv.item_type)) by {
        match iv.item_type {
            ItemType::SetItem => {},
            ItemType::Part => {},
            ItemType::Minifig => {},
            ItemType::Book => {},
            ItemType::Gear => {},
            ItemType::Catalog => {},
            ItemType::Instruction => {},
            ItemType::OriginalBox => {},
            ItemType::UnsortedLot => {},
        }
    }
    assert(spec_opt_price(sv.max_price) == Ok::<Option<i64>, DecodeErrorView>(iv.max_price)) by {
        match iv.max_price {
            None => {},
            Some(h) => {
                crate::numbers::lemma_price_roundtrip(h);
            },
        }
    }
    assert(spec_opt_condition(sv.condition) == Ok::<Option<Condition>, DecodeErrorView>(iv.condition)) by {
        match iv.condition {
            None => {},
            Some(c) => {
                match c {
                    Condition::New => {},
                    Condition::Used => {},
                    Condition::Complete => {},
                    Condition::Incomplete => {},
                    Condition::Sealed => {},
                    Condition::NotProvided => {},
                }
            },
        }
    }
    assert(spec_opt_notify(sv.notify) == Ok::<Option<Notify>, DecodeErrorView>(iv.notify)) by {
        match iv.notify {
            None => {},
            Some(n) => {
                match n {
                    Notify::Y => {},
                    Notify::N => {},
                }
            },
        }
    }
    assert(spec_opt_wanted_show(sv.wanted_show) == Ok::<Option<WantedShow>, DecodeErrorView>(iv.wanted_show)) by {
        match iv.wanted_show {
            None => {},
            Some(w) => {
                match w {
                    WantedShow::Y => {},
                    WantedShow::N => {},
                }
            },
        }
    }
    assert(spec_item_of_serde(sv) is Ok);
    assert(spec_item_of_serde(sv)->Ok_0 =~= iv);
}

// ---------------------------------------------------------------------------
// List conversions
// ---------------------------------------------------------------------------

/// Types a whole sequence of untyped records; the first bad record, in list
/// order, decides the error.
pub open spec fn spec_items_of_serde(svs: Seq<SerdeItemView>) -> Result<
    Seq<ItemView>,
    DecodeErrorView,
>
    decreases svs.len(),
{
    if svs.len() == 0 {
        Ok(Seq::empty())
    } else {
        match spec_items_of_serde(svs.drop_last()) {
            Err(e) => Err(e),
            Ok(pre) => match spec_item_of_serde(svs.last()) {
                Err(e) => Err(e),
                Ok(iv) => Ok(pre.push(iv)),
            },
        }
    }
}

/// Once a prefix fails to type, the whole sequence fails with that error.
proof fn lemma_items_of_serde_prefix_err(svs: Seq<SerdeItemView>, k: int)
    requires
        0 <= k <= svs.len(),
        spec_items_of_serde(svs.take(k)) is Err,
    ensures
        spec_items_of_serde(svs) == spec_items_of_serde(svs.take(k)),
    decreases svs.len(),
{
    if k == svs.len() {
        assert(svs.take(k) =~= svs);
    } else {
        assert(svs.drop_last().take(k) =~= svs.take(k));
        lemma_items_of_serde_prefix_err(svs.drop_last(), k);
    }
}

/// The untyped image of a whole list.
pub open spec fn spec_serde_items(items: Seq<ItemView>) -> Seq<SerdeItemView> {
    items.map_values(|iv: ItemView| spec_serde_of_item(iv))
}

/// Typing the untyped image of any list gives the list back.
pub proof fn lemma_items_codec_roundtrip(items: Seq<ItemView>)
    ensures
        spec_items_of_serde(spec_serde_items(items)) == Ok::<Seq<ItemView>, DecodeErrorView>(items),
    decreases items.len(),
{
    let svs = spec_serde_items(items);
    if items.len() == 0 {
        assert(spec_items_of_serde(svs) == Ok::<Seq<ItemView>, DecodeErrorView>(Seq::empty()));
        assert(items =~= Seq::<ItemView>::empty());
    } else {
        assert(svs.drop_last() =~= spec_serde_items(items.drop_last()));
        lemma_items_codec_roundtrip(items.drop_last());
        lemma_item_codec_roundtrip(items.last());
        assert(svs.last() == spec_serde_of_item(items.last()));
        assert(items.drop_last().push(items.last()) =~= items);
    }
}

impl WantedList {
    /// Types a whole untyped list; the first bad record decides the error.
    pub fn from_serde(sl: SerdeWantedList) -> (r: Result<WantedList, DecodeError>)
        ensures
            (match spec_items_of_serde(sl@) {
                Ok(ivs) => r is Ok && r->Ok_0@ == ivs,
                Err(e) => r is Err && r->Err_0@ == e,
            }),
    {
        let ghost svs = sl@;
        let mut out: Vec<Item> = Vec::new();
        let n = sl.items.len();
        let mut i: usize = 0;
        proof {
            assert(svs.take(0) =~= Seq::<SerdeItemView>::empty());
            assert(out@.map_values(|x: Item| x@) =~= Seq::<ItemView>::empty());
        }
        while i < n
            invariant
                i <= n,
                n == sl.items.len(),
                svs == sl@,
                spec_items_of_serde(svs.take(i as int)) == Ok::<Seq<ItemView>, DecodeErrorView>(out@.map_values(|x: Item| x@)),
            decreases n - i,
        {
            let si = sl.items[i].duplicate();
            proof {
                assert(si@ == svs[i as int]) by {
                    assert(svs[i as int] == sl.items@.map_values(|x: SerdeItem| x@)[i as int]);
                }
                assert(svs.take(i + 1).drop_last() =~= svs.take(i as int));
                assert(svs.take(i + 1).last() == svs[i as int]);
            }
            match Item::from_serde(si) {
                Ok(item) => {
                    let ghost out0 = out@;
                    out.push(item);
                    proof {
                        assert(out@ == out0.push(item));
                        assert(out@.map_values(|x: Item| x@) =~= out0.map_values(
                            |x: Item| x@,
                        ).push(item@));
                        assert(spec_items_of_serde(svs.take(i + 1)) == Ok::<
                            Seq<ItemView>,
                            DecodeErrorView,
                        >(out@.map_values(|x: Item| x@)));
                    }
                },
                Err(e) => {
                    proof {
                        assert(spec_items_of_serde(svs.take(i + 1)) is Err);
                        lemma_items_of_serde_prefix_err(svs, i + 1);
                    }
                    return Err(e);
                },
            }
            i = i + 1;
        }
        proof {
            assert(svs.take(n as int) =~= svs);
        }
        Ok(WantedList { items: out })
    }
}

impl SerdeWantedList {
    /// Flattens a typed list into its untyped wire records, in order.
    pub fn from_wanted(list: &WantedList) -> (r: SerdeWantedList)
        ensures
            r@ == spec_serde_items(list@),
    {
        let mut out: Vec<SerdeItem> = Vec::new();
        let n = list.items.len();
        let mut i: usize = 0;
        while i < n
            invariant
                i <= n,
                n == list.items.len(),
                out@.len() == i,
                forall|j: int|
                    0 <= j < i ==> (#[trigger] out@[j])@ == spec_serde_of_item(list@[j]),
            decreases n - i,
        {
            let si = SerdeItem::from_item(list.items[i].duplicate());
            proof {
                assert(list@[i as int] == list.items@.map_values(|x: Item| x@)[i as int]);
            }
            out.push(si);
            i = i + 1;
        }
        let r = SerdeWantedList { items: out };
        proof {
            assert(r@ =~= spec_serde_items(list@));
        }
        r
    }
}

} // verus!
