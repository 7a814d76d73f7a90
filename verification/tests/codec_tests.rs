//! Wire codec behavior: exact document text, the round trip over fixture
//! payloads, decode errors, and the repair of a defective writer's output.
use brickline::errors::{DecodeError, WireField};
use brickline::wanted::{
    Color, Condition, Item, ItemID, ItemType, MaxPrice, MinQty, Notify, QtyFilled, Remarks,
    SerdeWantedList, WantedList,
};
use brickline::inventory::SerdeInventory;
use brickline::{decode, encode};

const BRICKLINK_EXAMPLE: &str = "<?xml version=\"1.0\" encoding=\"UTF-8\"?><INVENTORY>\
<ITEM><ITEMTYPE>P</ITEMTYPE><ITEMID>3622</ITEMID><COLOR>11</COLOR><QTYFILLED>4</QTYFILLED></ITEM>\
<ITEM><ITEMTYPE>P</ITEMTYPE><ITEMID>3039</ITEMID></ITEM>\
<ITEM><ITEMTYPE>P</ITEMTYPE><ITEMID>3001</ITEMID><COLOR>5</COLOR><MAXPRICE>1.00</MAXPRICE>\
<MINQTY>100</MINQTY><CONDITION>N</CONDITION><REMARKS>for MOC AB154A</REMARKS>\
<NOTIFY>N</NOTIFY></ITEM></INVENTORY>";

const WANTED_LIST_1: &str = "<?xml version=\"1.0\" encoding=\"UTF-8\"?><INVENTORY>\
<ITEM><ITEMTYPE>P</ITEMTYPE><ITEMID>3001</ITEMID><COLOR>5</COLOR><MINQTY>100</MINQTY>\
<REMARKS>Testing</REMARKS></ITEM>\
<ITEM><ITEMTYPE>P</ITEMTYPE><ITEMID>3622</ITEMID><COLOR>11</COLOR><MINQTY>4</MINQTY></ITEM>\
<ITEM><ITEMTYPE>P</ITEMTYPE><ITEMID>3623</ITEMID><COLOR>11</COLOR></ITEM>\
</INVENTORY>";

const WANTED_LIST_2: &str = "<?xml version=\"1.0\" encoding=\"UTF-8\"?><INVENTORY>\
<ITEM><ITEMTYPE>P</ITEMTYPE><ITEMID>3000</ITEMID><COLOR>1</COLOR><MINQTY>4</MINQTY></ITEM>\
<ITEM><ITEMTYPE>P</ITEMTYPE><ITEMID>3001</ITEMID><COLOR>5</COLOR><MINQTY>100</MINQTY></ITEM>\
<ITEM><ITEMTYPE>P</ITEMTYPE><ITEMID>3622</ITEMID><COLOR>11</COLOR><MINQTY>10</MINQTY></ITEM>\
</INVENTORY>";

const WANTED_LIST_3: &str = "<?xml version=\"1.0\" encoding=\"UTF-8\"?><INVENTORY>\
<ITEM><ITEMTYPE>S</ITEMTYPE><ITEMID>10030-1</ITEMID><COLOR>-1</COLOR>\
<MAXPRICE>249.99</MAXPRICE><MINQTY>1</MINQTY><QTYFILLED>0</QTYFILLED><CONDITION>X</CONDITION>\
<REMARKS>shiny &amp; sealed</REMARKS><NOTIFY>Y</NOTIFY><WANTEDSHOW>N</WANTEDSHOW>\
<WANTEDLISTID>42</WANTEDLISTID></ITEM>\
<ITEM><ITEMTYPE>M</ITEMTYPE><ITEMID>sw001</ITEMID></ITEM></INVENTORY>";

#[test]
fn test_xml_to_wanted_list() {
    let bricklink_wanted_list: WantedList = decode(BRICKLINK_EXAMPLE).unwrap();

    let item_1 = Item {
        item_type: ItemType::Part,
        item_id: ItemID(String::from("3622")),
        color: Some(Color(11)),
        max_price: None,
        min_qty: None,
        qty_filled: Some(QtyFilled(4)),
        condition: None,
        remarks: None,
        notify: None,
        wanted_show: None,
        wanted_list_id: None,
    };
    let item_2 = Item {
        item_type: ItemType::Part,
        item_id: ItemID(String::from("3039")),
        color: None,
        max_price: None,
        min_qty: None,
        qty_filled: None,
        condition: None,
        remarks: None,
        notify: None,
        wanted_show: None,
        wanted_list_id: None,
    };
    let item_3 = Item {
        item_type: ItemType::Part,
        item_id: ItemID(String::from("3001")),
        color: Some(Color(5)),
        max_price: Some(MaxPrice(100)),
        min_qty: Some(MinQty(100)),
        qty_filled: None,
        condition: Some(Condition::New),
        remarks: Some(Remarks(String::from("for MOC AB154A"))),
        notify: Some(Notify::N),
        wanted_show: None,
        wanted_list_id: None,
    };
    let items = vec![item_1, item_2, item_3];
    let expected_wanted_list = WantedList { items };
    assert_eq!(bricklink_wanted_list, expected_wanted_list);
}

#[test]
fn test_wanted_list_to_string_1() {
    let item_1 = Item::build_test_item(
        ItemType::Part,
        ItemID(String::from("3622")),
        Some(Color(11)),
        Some(MinQty(4)),
    );
    let items = vec![item_1];
    let wanted_list = WantedList { items };
    let stringified = encode(&wanted_list).unwrap();
    let expected = "<?xml version=\"1.0\" encoding=\"UTF-8\"?>\
                <INVENTORY>\
                <ITEM>\
                <ITEMTYPE>P</ITEMTYPE>\
                <ITEMID>3622</ITEMID>\
                <COLOR>11</COLOR>\
                <MINQTY>4</MINQTY>\
                </ITEM>\
            </INVENTORY>\
            ";

    assert_eq!(String::from(expected), stringified);
}

#[test]
fn test_wanted_list_to_string_2() {
    let item_1 = Item::build_test_item(
        ItemType::Part,
        ItemID(String::from("3622")),
        Some(Color(11)),
        Some(MinQty(4)),
    );
    let item_2 = Item::build_test_item(
        ItemType::Part,
        ItemID(String::from("3623")),
        Some(Color(11)),
        Some(MinQty(4)),
    );
    let item_3 = Item::build_test_item(
        ItemType::Part,
        ItemID(String::from("3624")),
        Some(Color(11)),
        Some(MinQty(4)),
    );
    let items = vec![item_1, item_2, item_3];
    let wanted_list = WantedList { items };
    let stringified = encode(&wanted_list).unwrap();
    let expected = "<?xml version=\"1.0\" encoding=\"UTF-8\"?>\
                <INVENTORY>\
                <ITEM>\
                <ITEMTYPE>P</ITEMTYPE>\
                <ITEMID>3622</ITEMID>\
                <COLOR>11</COLOR>\
                <MINQTY>4</MINQTY>\
                </ITEM>\
                <ITEM>\
                <ITEMTYPE>P</ITEMTYPE>\
                <ITEMID>3623</ITEMID>\
                <COLOR>11</COLOR>\
                <MINQTY>4</MINQTY>\
                </ITEM>\
                <ITEM>\
                <ITEMTYPE>P</ITEMTYPE>\
                <ITEMID>3624</ITEMID>\
                <COLOR>11</COLOR>\
                <MINQTY>4</MINQTY>\
                </ITEM>\
            </INVENTORY>\
            ";

    assert_eq!(String::from(expected), stringified);
}

#[test]
fn test_roundtrips() {
    for payload in [
        BRICKLINK_EXAMPLE,
        WANTED_LIST_1,
        WANTED_LIST_2,
        WANTED_LIST_3,
    ] {
        let wanted_list = decode(payload).unwrap();
        let stringified = encode(&wanted_list).unwrap();
        assert_eq!(payload.to_string(), stringified);
    }
}

#[test]
fn test_roundtrip_empty_list() {
    let empty = WantedList { items: vec![] };
    let text = encode(&empty).unwrap();
    assert_eq!(
        text,
        "<?xml version=\"1.0\" encoding=\"UTF-8\"?><INVENTORY></INVENTORY>"
    );
    let back = decode(&text).unwrap();
    assert_eq!(back, empty);
    let self_closing = decode("<INVENTORY/>").unwrap();
    assert_eq!(self_closing, empty);
}

#[test]
fn test_roundtrip_escaped_text() {
    let mut item = Item::build_test_item(
        ItemType::Gear,
        ItemID(String::from("a<b&c>d")),
        None,
        None,
    );
    item.remarks = Some(Remarks(String::from("\"odd\" & 'rare' <tags>")));
    let list = WantedList { items: vec![item] };
    let text = encode(&list).unwrap();
    let back = decode(&text).unwrap();
    assert_eq!(back, list);
}

#[test]
fn test_decode_tolerates_layout() {
    // no declaration, newlines and spaces between the tags
    let text = "\n<INVENTORY>\n  <ITEM>\n    <ITEMTYPE>P</ITEMTYPE>\n    \
        <ITEMID>3001</ITEMID>\n  </ITEM>\n</INVENTORY>\n";
    let list = decode(text).unwrap();
    assert_eq!(list.items.len(), 1);
    assert_eq!(list.items[0].item_id, ItemID(String::from("3001")));
}

#[test]
fn test_decode_price_forms() {
    let text = "<INVENTORY><ITEM><ITEMTYPE>P</ITEMTYPE><ITEMID>1</ITEMID>\
        <MAXPRICE>1.5</MAXPRICE></ITEM></INVENTORY>";
    let list = decode(text).unwrap();
    assert_eq!(list.items[0].max_price, Some(MaxPrice(150)));
    let text2 = "<INVENTORY><ITEM><ITEMTYPE>P</ITEMTYPE><ITEMID>1</ITEMID>\
        <MAXPRICE>-3</MAXPRICE></ITEM></INVENTORY>";
    let list2 = decode(text2).unwrap();
    assert_eq!(list2.items[0].max_price, Some(MaxPrice(-300)));
    // the writer always renders two fractional digits
    let encoded = encode(&list).unwrap();
    assert!(encoded.contains("<MAXPRICE>1.50</MAXPRICE>"));
}

#[test]
fn test_decode_error_unknown_item_type() {
    let text = "<INVENTORY><ITEM><ITEMTYPE>Z</ITEMTYPE><ITEMID>1</ITEMID></ITEM></INVENTORY>";
    let err = decode(text).unwrap_err();
    assert_eq!(
        err,
        DecodeError::InvalidCode { field: WireField::ItemType, raw: String::from("Z") }
    );
}

#[test]
fn test_decode_error_unknown_condition() {
    let text = "<INVENTORY><ITEM><ITEMTYPE>P</ITEMTYPE><ITEMID>1</ITEMID>\
        <CONDITION>Q</CONDITION></ITEM></INVENTORY>";
    let err = decode(text).unwrap_err();
    assert_eq!(
        err,
        DecodeError::InvalidCode { field: WireField::Condition, raw: String::from("Q") }
    );
}

#[test]
fn test_decode_error_bad_price() {
    let text = "<INVENTORY><ITEM><ITEMTYPE>P</ITEMTYPE><ITEMID>1</ITEMID>\
        <MAXPRICE>1.005</MAXPRICE></ITEM></INVENTORY>";
    let err = decode(text).unwrap_err();
    assert_eq!(err, DecodeError::InvalidPrice { raw: String::from("1.005") });
}

#[test]
fn test_decode_error_bad_number() {
    let text = "<INVENTORY><ITEM><ITEMTYPE>P</ITEMTYPE><ITEMID>1</ITEMID>\
        <MINQTY>-4</MINQTY></ITEM></INVENTORY>";
    let err = decode(text).unwrap_err();
    assert_eq!(err, DecodeError::InvalidNumber { field: WireField::MinQty });
    let text2 = "<INVENTORY><ITEM><ITEMTYPE>P</ITEMTYPE><ITEMID>1</ITEMID>\
        <COLOR>999</COLOR></ITEM></INVENTORY>";
    let err2 = decode(text2).unwrap_err();
    assert_eq!(err2, DecodeError::InvalidNumber { field: WireField::Color });
}

#[test]
fn test_decode_error_duplicate_field() {
    let text = "<INVENTORY><ITEM><ITEMTYPE>P</ITEMTYPE><ITEMID>1</ITEMID>\
        <ITEMID>2</ITEMID></ITEM></INVENTORY>";
    let err = decode(text).unwrap_err();
    assert_eq!(err, DecodeError::DuplicateField { field: WireField::ItemId });
}

#[test]
fn test_decode_error_missing_field() {
    let text = "<INVENTORY><ITEM><ITEMID>1</ITEMID></ITEM></INVENTORY>";
    let err = decode(text).unwrap_err();
    assert_eq!(err, DecodeError::MissingField { field: WireField::ItemType });
}

#[test]
fn test_decode_error_malformed() {
    assert_eq!(decode("<INVENTORY>").unwrap_err(), DecodeError::Malformed);
    assert_eq!(decode("nonsense").unwrap_err(), DecodeError::Malformed);
    assert_eq!(
        decode("<INVENTORY><WRONG/></INVENTORY>").unwrap_err(),
        DecodeError::Malformed
    );
}

#[test]
fn test_amend_serialized_string() {
    // a writer that wraps the items in one spurious item tag pair
    let defective = String::from(
        "<INVENTORY><ITEM><ITEM><ITEMTYPE>P</ITEMTYPE><ITEMID>3622</ITEMID>\
         <COLOR>11</COLOR><MINQTY>4</MINQTY></ITEM></ITEM></INVENTORY>",
    );
    let repaired = SerdeWantedList::amend_serialized_string(defective);
    assert_eq!(
        repaired,
        "<?xml version=\"1.0\" encoding=\"UTF-8\"?><INVENTORY><ITEM><ITEMTYPE>P</ITEMTYPE>\
         <ITEMID>3622</ITEMID><COLOR>11</COLOR><MINQTY>4</MINQTY></ITEM></INVENTORY>"
    );
}

#[test]
fn test_repair_serialized_string() {
    let defective = String::from(
        "<INVENTORY><ITEM><ITEM><ITEMTYPE>P</ITEMTYPE><ITEMID>3622</ITEMID>\
         </ITEM></ITEM></INVENTORY>",
    );
    let repaired = SerdeInventory::repair_serialized_string(defective);
    assert_eq!(
        repaired,
        "<INVENTORY><ITEM><ITEMTYPE>P</ITEMTYPE><ITEMID>3622</ITEMID></ITEM></INVENTORY>"
    );
}

#[test]
fn test_roundtrip_extreme_prices() {
    let mut cheap = Item::build_test_item(
        ItemType::Part,
        ItemID(String::from("1")),
        None,
        None,
    );
    cheap.max_price = Some(MaxPrice(5));
    let mut low = Item::build_test_item(ItemType::Part, ItemID(String::from("2")), None, None);
    low.max_price = Some(MaxPrice(i64::MIN));
    let mut high = Item::build_test_item(ItemType::Part, ItemID(String::from("3")), None, None);
    high.max_price = Some(MaxPrice(i64::MAX));
    let list = WantedList { items: vec![cheap, low, high] };
    let text = encode(&list).unwrap();
    assert!(text.contains("<MAXPRICE>0.05</MAXPRICE>"));
    let back = decode(&text).unwrap();
    assert_eq!(back, list);
}
