use beacn_link::beacn_audio::BeacnLink;
use beacn_link::beacn_audio::parse_device_line;
use beacn_link::beacn_audio::parse_device_listing;
use beacn_link::text::lines_of;
use beacn_link::text::split_on_char;
use beacn_link::text::contains_str;

#[test]
fn split_fields_of_a_listing_line() {
    let fields = split_on_char("0\talsa_output\tBuilt-in Audio", '\t');
    assert_eq!(fields, vec!["0", "alsa_output", "Built-in Audio"]);
}

#[test]
fn split_keeps_empty_fields() {
    assert_eq!(split_on_char("a\t\t", '\t'), vec!["a", "", ""]);
    assert_eq!(split_on_char("", '\t'), vec![""]);
    assert_eq!(split_on_char("\t", '\t'), vec!["", ""]);
}

#[test]
fn lines_drop_the_final_newline_and_carriage_returns() {
    assert_eq!(lines_of("a\nb\n"), vec!["a", "b"]);
    assert_eq!(lines_of("a\r\nb"), vec!["a", "b"]);
    assert_eq!(lines_of("\n"), vec![""]);
    assert_eq!(lines_of(""), Vec::<String>::new());
    // A carriage return counts as a line ending only together with a newline.
    assert_eq!(lines_of("a\r"), vec!["a\r"]);
    assert_eq!("a\r".lines().collect::<Vec<&str>>(), vec!["a\r"]);
}

#[test]
fn substring_search() {
    assert!(contains_str("21\tmodule-null-sink\tsink_name=beacn_link_out", "beacn_link_"));
    assert!(!contains_str("21\tmodule-null-sink\tsink_name=BEACN", "beacn_link_"));
    assert!(contains_str("anything", ""));
    assert!(!contains_str("", "beacn_link_"));
}

#[test]
fn well_formed_line_becomes_a_record() {
    let device = parse_device_line("0\talsa_output\tBuilt-in Audio", true).unwrap();
    assert_eq!(device.id, "0");
    assert_eq!(device.name, "alsa_output");
    assert_eq!(device.description, "Built-in Audio");
    assert!(device.is_output);
}

#[test]
fn two_field_line_gets_an_empty_description() {
    let device = parse_device_line("3\tmonitor_source", false).unwrap();
    assert_eq!(device.id, "3");
    assert_eq!(device.name, "monitor_source");
    assert_eq!(device.description, "");
    assert!(!device.is_output);
}

#[test]
fn trailing_tab_makes_an_empty_second_field() {
    let device = parse_device_line("0\t", true).unwrap();
    assert_eq!(device.id, "0");
    assert_eq!(device.name, "");
    assert_eq!(device.description, "");
}

#[test]
fn carriage_return_is_stripped_before_fields_are_read() {
    let devices = parse_device_listing("0\tsink_a\r\n1\tsink_b\r\n", true);
    assert_eq!(devices.len(), 2);
    assert_eq!(devices[0].name, "sink_a");
    assert_eq!(devices[1].name, "sink_b");
}

#[test]
fn malformed_line_is_excluded_without_failure() {
    let listing = "0\tgood_sink\tA sink\nmalformed line without tabs\n1\tother_sink\tB sink\n";
    let devices = parse_device_listing(listing, true);
    assert_eq!(devices.len(), 2);
    assert_eq!(devices[0].name, "good_sink");
    assert_eq!(devices[1].name, "other_sink");
}

#[test]
fn enumeration_counts_sinks_then_sources() {
    let sinks = "0\tsink_a\tFirst sink\n1\tsink_b\tSecond sink\n";
    let sources = "2\tsource_a\tFirst source\n3\tsource_b\tSecond source\n4\tsource_c\tThird source\n";
    let link = BeacnLink::new();
    let devices = link.get_audio_devices(sinks, sources);
    assert_eq!(devices.len(), 5);
    for device in devices.iter().take(2) {
        assert!(device.is_output);
    }
    for device in devices.iter().skip(2) {
        assert!(!device.is_output);
    }
    assert_eq!(devices[0].name, "sink_a");
    assert_eq!(devices[2].name, "source_a");
    assert_eq!(devices[4].description, "Third source");
}

#[test]
fn enumeration_of_empty_listings_is_empty() {
    let link = BeacnLink::new();
    assert_eq!(link.get_audio_devices("", "").len(), 0);
}
