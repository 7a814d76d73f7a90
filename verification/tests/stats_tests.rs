//! Statistics behavior: the fold's counters, the one-step update, and the
//! rendered report.
use brickline::wanted::{Color, Item, ItemID, ItemType, MinQty, SerdeItem, SerdeWantedList, WantedList};
use brickline::{gen_statistics, type_and_gen_statistics, update_wanted_list_statistic};
use brickline::WantedListStatistics;

fn sample_list() -> WantedList {
    WantedList {
        items: vec![
            Item::build_test_item(
                ItemType::Part,
                ItemID(String::from("3001")),
                Some(Color(5)),
                Some(MinQty(100)),
            ),
            Item::build_test_item(
                ItemType::Part,
                ItemID(String::from("3622")),
                Some(Color(5)),
                None,
            ),
            // the same identity key twice: counted once
            Item::build_test_item(
                ItemType::Part,
                ItemID(String::from("3622")),
                Some(Color(5)),
                Some(MinQty(7)),
            ),
            Item::build_test_item(ItemType::Part, ItemID(String::from("3039")), None, None),
        ],
    }
}

#[test]
fn test_gen_statistics_counts() {
    let stats = gen_statistics(&sample_list());
    // every record is counted
    assert_eq!(stats.total_items, 4);
    // absent quantities count as one: 100 + 1 + 7 + 1
    assert_eq!(stats.total_parts, 109);
    // three distinct identity keys
    assert_eq!(stats.unique_item_color_count, 3);
    // one distinct present color
    assert_eq!(stats.unique_color_count, 1);
    // the sanity relations of the aggregate
    assert_eq!(stats.total_items as usize, sample_list().items.len());
    assert!(stats.unique_item_color_count <= stats.total_items);
    assert!(stats.unique_color_count <= stats.unique_item_color_count);
}

#[test]
fn test_update_wanted_list_statistic() {
    let mut stats = WantedListStatistics::init();
    let item = Item::build_test_item(
        ItemType::Part,
        ItemID(String::from("3001")),
        Some(Color(5)),
        Some(MinQty(3)),
    );
    update_wanted_list_statistic(&item, &mut stats);
    assert_eq!(stats.total_items, 1);
    assert_eq!(stats.total_parts, 3);
    assert_eq!(stats.unique_item_color_count, 1);
    assert_eq!(stats.unique_color_count, 1);
    // the same key again only adds to the totals
    update_wanted_list_statistic(&item, &mut stats);
    assert_eq!(stats.total_items, 2);
    assert_eq!(stats.total_parts, 6);
    assert_eq!(stats.unique_item_color_count, 1);
    assert_eq!(stats.unique_color_count, 1);
}

#[test]
fn test_type_and_gen_statistics() {
    let serde_list = SerdeWantedList {
        items: vec![SerdeItem {
            item_type: String::from("P"),
            item_id: String::from("3039"),
            color: Some(11),
            max_price: None,
            min_qty: Some(20),
            qty_filled: None,
            condition: None,
            remarks: None,
            notify: None,
            wanted_show: None,
            wanted_list_id: None,
        }],
    };
    let (list, stats) = type_and_gen_statistics(serde_list).unwrap();
    assert_eq!(list.items.len(), 1);
    assert_eq!(list.items[0].item_type, ItemType::Part);
    assert_eq!(stats.total_items, 1);
    assert_eq!(stats.total_parts, 20);
}

#[test]
fn test_summary_string() {
    let stats = gen_statistics(&sample_list());
    let report = stats.summary_string();
    assert_eq!(
        report,
        "\nTotal Items: 4, \nTotal Parts: 109, \nUnique Item/Color Count: 3, \nUnique Color Count: 1"
    );
}
