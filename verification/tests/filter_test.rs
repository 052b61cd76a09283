use msq::filter::{FilterProp, FilterPropVal};
use msq::Filter;

#[test]
fn test_filter_simple() {
    let filter = Filter::new().appid(240);

    assert_eq!(filter.as_string(), "\\appid\\240");
}

#[test]
fn test_filter_multi() {
    let filter = Filter::new()
        .appid(240)
        .gametype(&vec!["friendlyfire", "alltalk"])
        .nand()
        .map("de_dust2")
        .end();

    assert_eq!(
        filter.as_string(),
        "\\appid\\240\\gametype\\friendlyfire,alltalk\\nand\\1\\map\\de_dust2"
    );
}

#[test]
fn test_filter_multi_2() {
    let filter = Filter::new()
        .appid(240)
        .nand()
        .map("de_dust2")
        .end()
        .gametype(&vec!["friendlyfire", "alltalk"]);

    assert_eq!(
        filter.as_string(),
        "\\appid\\240\\nand\\1\\map\\de_dust2\\gametype\\friendlyfire,alltalk"
    );
}

#[test]
fn test_filter_multi_3() {
    let filter = Filter::new()
        .appid(240)
        .nand()
        .map("de_dust2")
        .gametype(&vec!["friendlyfire", "alltalk"])
        .end();

    assert_eq!(
        filter.as_string(),
        "\\appid\\240\\nand\\2\\map\\de_dust2\\gametype\\friendlyfire,alltalk"
    );
}

#[test]
fn test_filter_empty_gametype_list() {
    let filter = Filter::new()
        .appid(240)
        .nand()
        .map("de_dust2")
        .gametype(&vec![])
        .end();

    assert_eq!(
        filter.as_string(),
        "\\appid\\240\\nand\\1\\map\\de_dust2"
    );
}

#[test]
fn test_filter_gametype2() {
    let filter = Filter::new()
        .appid(440)
        .gametype(&vec!["cp"])
        .nor()
            .gametype(&vec!["alltalk"])
        .end();

    assert_eq!(
        filter.as_string(),
        "\\appid\\440\\gametype\\cp\\nor\\1\\gametype\\alltalk"
    );
}

#[test]
fn test_filter_new_is_empty() {
    assert_eq!(Filter::new().as_string(), "");
}

#[test]
fn test_filter_as_str_is_as_string() {
    let filter = Filter::new().appid(240).map("de_dust2");
    assert_eq!(filter.as_str(), "\\appid\\240\\map\\de_dust2");
    assert_eq!(filter.as_str(), filter.as_string());
}

#[test]
fn test_filter_pairs_keep_their_order() {
    let one = Filter::new().appid(240).map("de_dust2");
    let other = Filter::new().map("de_dust2").appid(240);
    assert_eq!(one.as_string(), "\\appid\\240\\map\\de_dust2");
    assert_eq!(other.as_string(), "\\map\\de_dust2\\appid\\240");
}

#[test]
fn test_filter_booleans() {
    let filter = Filter::new()
        .dedicated(true)
        .secure(false)
        .linux(true)
        .password(false)
        .proxy(true)
        .whitelisted(false)
        .collapse_addr_hash(true);
    assert_eq!(
        filter.as_string(),
        "\\dedicated\\1\\secure\\0\\linux\\1\\password\\0\\proxy\\1\\white\\0\\collapse_addr_hash\\1"
    );
}

#[test]
fn test_filter_full_is_written_inverted() {
    assert_eq!(Filter::new().full(true).as_string(), "\\full\\0");
    assert_eq!(Filter::new().full(false).as_string(), "\\full\\1");
}

#[test]
fn test_filter_empty_and_not_empty() {
    assert_eq!(Filter::new().empty(true).as_string(), "\\noplayers\\1");
    assert_eq!(Filter::new().empty(false).as_string(), "\\empty\\1");
}

#[test]
fn test_filter_strings() {
    let filter = Filter::new()
        .gamedir("cstrike")
        .name_match("*pub*")
        .version_match("1.0.*")
        .gameaddr("216.52.143.114:27015");
    assert_eq!(
        filter.as_string(),
        "\\gamedir\\cstrike\\name_match\\*pub*\\version_match\\1.0.*\\gameaddr\\216.52.143.114:27015"
    );
}

#[test]
fn test_filter_numbers() {
    assert_eq!(Filter::new().appid(0).as_string(), "\\appid\\0");
    assert_eq!(Filter::new().napp(500).as_string(), "\\napp\\500");
    assert_eq!(
        Filter::new().appid(u32::MAX).as_string(),
        "\\appid\\4294967295"
    );
}

#[test]
fn test_filter_tag_lists() {
    let filter = Filter::new()
        .gametype(&vec!["a"])
        .gamedata(&vec!["b", "c"])
        .gamedataor(&vec!["d", "e", "f"]);
    assert_eq!(
        filter.as_string(),
        "\\gametype\\a\\gamedata\\b,c\\gamedataor\\d,e,f"
    );
}

#[test]
fn test_filter_empty_tag_lists_add_nothing() {
    let filter = Filter::new()
        .gametype(&vec![])
        .gamedata(&vec![])
        .gamedataor(&vec![]);
    assert_eq!(filter.as_string(), "");
}

#[test]
fn test_filter_empty_group() {
    assert_eq!(Filter::new().nand().end().as_string(), "\\nand\\0");
    assert_eq!(Filter::new().nor().end().as_string(), "\\nor\\0");
}

#[test]
fn test_filter_group_of_many() {
    let mut filter = Filter::new().nor();
    for _ in 0..12 {
        filter = filter.empty(true);
    }
    let expected = format!("\\nor\\12{}", "\\noplayers\\1".repeat(12));
    assert_eq!(filter.end().as_string(), expected);
}

#[test]
fn test_filter_open_group_is_not_written() {
    let filter = Filter::new().appid(240).nand().map("de_dust2");
    assert_eq!(filter.as_string(), "\\appid\\240");
}

#[test]
fn test_filter_reopening_drops_the_open_group() {
    let filter = Filter::new().nand().map("de_dust2").nor().empty(true).end();
    assert_eq!(filter.as_string(), "\\nor\\1\\noplayers\\1");
}

#[test]
fn test_filter_end_twice_writes_the_group_again_without_name() {
    let filter = Filter::new().nand().map("de_dust2").end().end();
    assert_eq!(
        filter.as_string(),
        "\\nand\\1\\map\\de_dust2\\\\1\\map\\de_dust2"
    );
}

#[test]
fn test_filter_two_groups() {
    let filter = Filter::new()
        .nand()
        .map("de_dust2")
        .empty(true)
        .end()
        .nor()
        .secure(true)
        .end();
    assert_eq!(
        filter.as_string(),
        "\\nand\\2\\map\\de_dust2\\noplayers\\1\\nor\\1\\secure\\1"
    );
}

#[test]
fn test_filter_prop_values() {
    assert_eq!(FilterPropVal::Boolean(true).as_str(), "1");
    assert_eq!(FilterPropVal::Boolean(false).as_str(), "0");
    assert_eq!(FilterPropVal::Str(String::from("de_dust2")).as_str(), "de_dust2");
    assert_eq!(FilterPropVal::Uint32(244630).as_str(), "244630");
    assert_eq!(FilterPropVal::from_tags(&vec![]).as_str(), "");
    assert_eq!(FilterPropVal::from_tags(&vec!["a"]).as_str(), "a");
    assert_eq!(FilterPropVal::from_tags(&vec!["a", "", "c"]).as_str(), "a,,c");
    assert_eq!(FilterPropVal::from_special(&vec![]).as_str(), "0");
}

#[test]
fn test_filter_prop() {
    let map = FilterProp::new("map", FilterPropVal::Str(String::from("de_dust2")));
    assert_eq!(map.as_str(), "\\map\\de_dust2");
    let empty = FilterProp::new("noplayers", FilterPropVal::Boolean(true));
    let inner = vec![map, empty];
    let group = FilterProp::new("nand", FilterPropVal::from_special(&inner));
    assert_eq!(group.as_str(), "\\nand\\2\\map\\de_dust2\\noplayers\\1");
    let nested = FilterProp::new("nor", FilterPropVal::Special(vec![group.clone()]));
    assert_eq!(
        nested.as_str(),
        "\\nor\\1\\nand\\2\\map\\de_dust2\\noplayers\\1"
    );
    assert_eq!(group.clone().as_str(), group.as_str());
}
