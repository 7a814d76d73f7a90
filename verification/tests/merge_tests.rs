//! Reconciliation behavior: the identity-keyed map, quantity accumulation,
//! the deterministic output order, and key uniqueness.
use brickline::wanted::{Color, Item, ItemID, ItemType, MinQty, Remarks, WantedList};
use brickline::{build_item_color_hashmap, decode, increment_item, join_inventories};
use brickline::ItemColorHashKey;

const WANTED_LIST_1: &str = "<?xml version=\"1.0\" encoding=\"UTF-8\"?><INVENTORY>\
<ITEM><ITEMTYPE>P</ITEMTYPE><ITEMID>3001</ITEMID><COLOR>5</COLOR><MINQTY>100</MINQTY>\
<REMARKS>Testing</REMARKS></ITEM>\
<ITEM><ITEMTYPE>P</ITEMTYPE><ITEMID>3622</ITEMID><COLOR>11</COLOR><MINQTY>4</MINQTY></ITEM>\
<ITEM><ITEMTYPE>P</ITEMTYPE><ITEMID>3623</ITEMID><COLOR>11</COLOR></ITEM>\
</INVENTORY>";

const WANTED_LIST_2: &str = "<?xml version=\"1.0\" encoding=\"UTF-8\"?><INVENTORY>\
<ITEM><ITEMTYPE>P</ITEMTYPE><ITEMID>3000</ITEMID><COLOR>1</COLOR><MINQTY>4</MINQTY></ITEM>\
<ITEM><ITEMTYPE>P</ITEMTYPE><ITEMID>3001</ITEMID><COLOR>5</COLOR><MINQTY>100</MINQTY></ITEM>\
<ITEM><ITEMTYPE>P</ITEMTYPE><ITEMID>3622</ITEMID><COLOR>11</COLOR><MINQTY>10</MINQTY></ITEM>\
</INVENTORY>";

const BRICKLINK_EXAMPLE: &str = "<?xml version=\"1.0\" encoding=\"UTF-8\"?><INVENTORY>\
<ITEM><ITEMTYPE>P</ITEMTYPE><ITEMID>3622</ITEMID><COLOR>11</COLOR><QTYFILLED>4</QTYFILLED></ITEM>\
<ITEM><ITEMTYPE>P</ITEMTYPE><ITEMID>3039</ITEMID></ITEM>\
<ITEM><ITEMTYPE>P</ITEMTYPE><ITEMID>3001</ITEMID><COLOR>5</COLOR><MAXPRICE>1.00</MAXPRICE>\
<MINQTY>100</MINQTY><CONDITION>N</CONDITION><REMARKS>for MOC AB154A</REMARKS>\
<NOTIFY>N</NOTIFY></ITEM></INVENTORY>";

#[test]
fn test_build_item_color_hashmap() {
    let item_1 = Item::build_test_item(
        ItemType::Part,
        ItemID(String::from("3622")),
        Some(Color(11)),
        None,
    );
    let item_1a = item_1.clone();
    let item_2 = Item::build_test_item(ItemType::Part, ItemID(String::from("3039")), None, None);
    let item_2a = item_2.clone();
    let item_3 = Item::build_test_item(
        ItemType::Part,
        ItemID(String::from("3001")),
        Some(Color(5)),
        None,
    );
    let inventory = WantedList {
        items: vec![item_1, item_2, item_3],
    };
    let hm = build_item_color_hashmap(&inventory);
    assert_eq!(hm.len(), 3);
    let key_1 = ItemColorHashKey {
        item_id: ItemID(String::from("3622")),
        color: Some(Color(11)),
    };
    let key_2 = ItemColorHashKey {
        item_id: ItemID(String::from("3039")),
        color: None,
    };
    assert_eq!(hm.get(&key_1), Some(&item_1a));
    assert_eq!(hm.get(&key_2), Some(&item_2a));
}

#[test]
fn test_increment_item_with_righthand_min_qty() {
    let mut left_item = Item::build_test_item(
        ItemType::Part,
        ItemID(String::from("3039")),
        Some(Color(5)),
        Some(MinQty(20)),
    );
    let right_item = Item::build_test_item(
        ItemType::Part,
        ItemID(String::from("3039")),
        Some(Color(5)),
        Some(MinQty(10)),
    );

    increment_item(&mut left_item, &right_item);
    assert_eq!(left_item.min_qty.unwrap().0, 30);
}

#[test]
fn test_increment_item_with_no_righthand_min_qty() {
    let mut left_item = Item::build_test_item(
        ItemType::Part,
        ItemID(String::from("3039")),
        Some(Color(5)),
        Some(MinQty(20)),
    );
    let right_item = Item::build_test_item(
        ItemType::Part,
        ItemID(String::from("3039")),
        Some(Color(5)),
        None,
    );

    increment_item(&mut left_item, &right_item);
    assert_eq!(left_item.min_qty.unwrap().0, 21);
}

#[test]
fn test_increment_item_with_no_min_qty() {
    let mut left_item = Item::build_test_item(
        ItemType::Part,
        ItemID(String::from("3039")),
        Some(Color(5)),
        None,
    );
    let right_item = Item::build_test_item(
        ItemType::Part,
        ItemID(String::from("3039")),
        Some(Color(5)),
        None,
    );

    increment_item(&mut left_item, &right_item);
    assert_eq!(left_item.min_qty.unwrap().0, 2);
}

#[test]
fn test_join_inventories_1() {
    let wanted_list_1 = decode(WANTED_LIST_1).unwrap();
    let wanted_list_2 = decode(WANTED_LIST_2).unwrap();

    let joined_wanted_list_1 = join_inventories(&wanted_list_1, &wanted_list_2);
    let joined_wanted_list_2 = join_inventories(&wanted_list_2, &wanted_list_1);

    // These end up being ordered by ItemID
    let expected_qty = vec![
        (ItemID(String::from("3000")), Some(MinQty(4))),
        (ItemID(String::from("3001")), Some(MinQty(200))),
        (ItemID(String::from("3622")), Some(MinQty(14))),
        (ItemID(String::from("3623")), None),
    ];
    for (i, expected) in expected_qty.iter().enumerate() {
        let item = &joined_wanted_list_1.items[i];
        assert_eq!(expected.0, item.item_id);
        assert_eq!(expected.1, item.min_qty)
    }

    // The first join should retain the remarks of wanted_list_1
    assert_eq!(
        joined_wanted_list_1.items[1].remarks,
        Some(Remarks("Testing".to_string()))
    );
    // The second join should use wanted_list_2, so no remarks
    assert_eq!(joined_wanted_list_2.items[1].remarks, None);
}

#[test]
fn test_join_inventories_2() {
    let wanted_list_1 = decode(WANTED_LIST_1).unwrap();
    let wanted_list_2 = decode(BRICKLINK_EXAMPLE).unwrap();

    let joined_wanted_list_1 = join_inventories(&wanted_list_1, &wanted_list_2);
    let joined_wanted_list_2 = join_inventories(&wanted_list_2, &wanted_list_1);

    // These end up being ordered by ItemID
    let expected_qty = vec![
        (ItemID(String::from("3001")), Some(MinQty(200))),
        (ItemID(String::from("3039")), None),
        (ItemID(String::from("3622")), Some(MinQty(5))),
        (ItemID(String::from("3623")), None),
    ];
    for (i, expected) in expected_qty.iter().enumerate() {
        let item = &joined_wanted_list_1.items[i];
        assert_eq!(expected.0, item.item_id);
        assert_eq!(expected.1, item.min_qty)
    }

    // The first join should retain the remarks of wanted_list_1
    assert_eq!(
        joined_wanted_list_1.items[0].remarks,
        Some(Remarks("Testing".to_string()))
    );
    // The second join should retain the remarks of bricklink_example
    assert_eq!(
        joined_wanted_list_2.items[0].remarks,
        Some(Remarks("for MOC AB154A".to_string()))
    );
}

#[test]
fn test_reconcile_present_min_qty() {
    // both sides carry an explicit quantity: 20 + 10
    let primary = WantedList {
        items: vec![Item::build_test_item(
            ItemType::Part,
            ItemID(String::from("3039")),
            Some(Color(5)),
            Some(MinQty(20)),
        )],
    };
    let secondary = WantedList {
        items: vec![Item::build_test_item(
            ItemType::Part,
            ItemID(String::from("3039")),
            Some(Color(5)),
            Some(MinQty(10)),
        )],
    };
    let joined = join_inventories(&primary, &secondary);
    assert_eq!(joined.items.len(), 1);
    assert_eq!(joined.items[0].min_qty, Some(MinQty(30)));
}

#[test]
fn test_reconcile_absent_min_qty() {
    // no explicit quantity anywhere: one implicit each side makes two
    let primary = WantedList {
        items: vec![Item::build_test_item(
            ItemType::Part,
            ItemID(String::from("3039")),
            Some(Color(5)),
            None,
        )],
    };
    let secondary = WantedList {
        items: vec![Item::build_test_item(
            ItemType::Part,
            ItemID(String::from("3039")),
            Some(Color(5)),
            None,
        )],
    };
    let joined = join_inventories(&primary, &secondary);
    assert_eq!(joined.items.len(), 1);
    assert_eq!(joined.items[0].min_qty, Some(MinQty(2)));
}

#[test]
fn test_reconcile_not_commutative() {
    // the retained metadata depends on which list comes first
    let mut a_item = Item::build_test_item(
        ItemType::Part,
        ItemID(String::from("3039")),
        Some(Color(5)),
        None,
    );
    a_item.remarks = Some(Remarks(String::from("from the left list")));
    let mut b_item = Item::build_test_item(
        ItemType::Part,
        ItemID(String::from("3039")),
        Some(Color(5)),
        None,
    );
    b_item.remarks = Some(Remarks(String::from("from the right list")));
    let a = WantedList { items: vec![a_item] };
    let b = WantedList { items: vec![b_item] };
    let ab = join_inventories(&a, &b);
    let ba = join_inventories(&b, &a);
    assert_ne!(ab, ba);
    assert_eq!(
        ab.items[0].remarks,
        Some(Remarks(String::from("from the left list")))
    );
    assert_eq!(
        ba.items[0].remarks,
        Some(Remarks(String::from("from the right list")))
    );
}

#[test]
fn test_reconcile_order_canonical() {
    // the output order depends only on the contained identity keys
    let a = WantedList {
        items: vec![
            Item::build_test_item(ItemType::Part, ItemID(String::from("900")), None, None),
            Item::build_test_item(
                ItemType::Part,
                ItemID(String::from("100")),
                Some(Color(7)),
                None,
            ),
        ],
    };
    let b = WantedList {
        items: vec![
            Item::build_test_item(
                ItemType::Part,
                ItemID(String::from("100")),
                Some(Color(-4)),
                None,
            ),
            Item::build_test_item(
                ItemType::Part,
                ItemID(String::from("100")),
                None,
                None,
            ),
        ],
    };
    let ab = join_inventories(&a, &b);
    let ba = join_inventories(&b, &a);
    let ids_ab: Vec<(String, Option<i8>)> = ab
        .items
        .iter()
        .map(|i| (i.item_id.0.clone(), i.color.map(|c| c.0)))
        .collect();
    let ids_ba: Vec<(String, Option<i8>)> = ba
        .items
        .iter()
        .map(|i| (i.item_id.0.clone(), i.color.map(|c| c.0)))
        .collect();
    // absent color first, negative color before positive, identifiers in
    // character order
    let expected = vec![
        (String::from("100"), None),
        (String::from("100"), Some(-4)),
        (String::from("100"), Some(7)),
        (String::from("900"), None),
    ];
    assert_eq!(ids_ab, expected);
    assert_eq!(ids_ba, expected);
}

#[test]
fn test_reconcile_unique_keys() {
    // duplicated keys inside one input collapse to one record
    let a = WantedList {
        items: vec![
            Item::build_test_item(
                ItemType::Part,
                ItemID(String::from("3039")),
                Some(Color(5)),
                Some(MinQty(1)),
            ),
            Item::build_test_item(
                ItemType::Part,
                ItemID(String::from("3039")),
                Some(Color(5)),
                Some(MinQty(9)),
            ),
        ],
    };
    let b = WantedList {
        items: vec![Item::build_test_item(
            ItemType::Part,
            ItemID(String::from("3039")),
            Some(Color(5)),
            Some(MinQty(2)),
        )],
    };
    let joined = join_inventories(&a, &b);
    assert_eq!(joined.items.len(), 1);
    // within the seeding list the later record wins, the other side adds
    assert_eq!(joined.items[0].min_qty, Some(MinQty(11)));
    for i in 0..joined.items.len() {
        for j in (i + 1)..joined.items.len() {
            let ki = (&joined.items[i].item_id, &joined.items[i].color);
            let kj = (&joined.items[j].item_id, &joined.items[j].color);
            assert_ne!(ki, kj);
        }
    }
}

#[test]
fn test_increment_item_clamps_at_max() {
    // the sum clamps at the largest representable quantity
    let mut left_item = Item::build_test_item(
        ItemType::Part,
        ItemID(String::from("3039")),
        Some(Color(5)),
        Some(MinQty(u64::MAX)),
    );
    let right_item = Item::build_test_item(
        ItemType::Part,
        ItemID(String::from("3039")),
        Some(Color(5)),
        Some(MinQty(10)),
    );
    increment_item(&mut left_item, &right_item);
    assert_eq!(left_item.min_qty, Some(MinQty(u64::MAX)));
}
