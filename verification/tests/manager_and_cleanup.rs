use beacn_link::beacn_audio::BeacnLink;
use beacn_link::cleanup::cleanup_virtual_devices;
use beacn_link::cleanup::modules_to_unload;
use beacn_link::link_outputs::LinkOutputsRun;

#[test]
fn initialize_needs_both_the_server_and_a_context() {
    let mut link = BeacnLink::new();
    assert!(!link.initialize(false, true));
    assert!(!link.initialize(true, false));
    assert!(link.initialize(true, true));
    // A later failed attempt leaves the earlier context in place.
    assert!(!link.initialize(false, false));
    assert!(link.create_virtual_output("x".to_string()).is_some());
}

#[test]
fn create_virtual_output_builds_the_null_sink_command() {
    let mut link = BeacnLink::new();
    assert!(link.create_virtual_output("MyOut".to_string()).is_none());
    assert!(link.initialize(true, true));
    let args = link.create_virtual_output("MyOut".to_string()).unwrap();
    assert_eq!(
        args,
        vec![
            "load-module",
            "module-null-sink",
            "sink_name=MyOut",
            "sink_properties=device.description=\"MyOut\"",
        ]
    );
}

#[test]
fn route_audio_builds_the_loopback_command() {
    let mut link = BeacnLink::new();
    assert!(link.route_audio("mic".to_string(), "out".to_string()).is_none());
    assert!(link.initialize(true, true));
    let args = link.route_audio("mic".to_string(), "out".to_string()).unwrap();
    assert_eq!(args, vec!["load-module", "module-loopback", "source=mic", "sink=out"]);
}

#[test]
fn link_outputs_run_creates_all_four_in_order() {
    let link = BeacnLink::new();
    let mut run = link.create_link_outputs();
    let mut names: Vec<String> = Vec::new();
    while let Some(name) = run.next_output() {
        names.push(name);
        run.record(true);
    }
    assert_eq!(
        names,
        vec!["BEACN_Link_Out", "BEACN_Link_2_Out", "BEACN_Link_3_Out", "BEACN_Link_4_Out"]
    );
    assert_eq!(run.outcome(), Some(true));
}

#[test]
fn link_outputs_run_stops_at_the_first_failure() {
    let mut run = LinkOutputsRun::new();
    assert_eq!(run.outcome(), None);
    assert_eq!(run.next_output().unwrap(), "BEACN_Link_Out");
    run.record(true);
    assert_eq!(run.next_output().unwrap(), "BEACN_Link_2_Out");
    run.record(false);
    // The run is over: no further output is attempted and the result is false.
    assert!(run.next_output().is_none());
    assert_eq!(run.outcome(), Some(false));
}

#[test]
fn cleanup_unloads_only_marked_modules() {
    let listing = "20\tmodule-null-sink\tsink_name=beacn_link_out\n\
                   21\tmodule-alsa-card\tname=pci\n\
                   22\tmodule-null-sink\tsink_name=beacn_link_2_out\n";
    assert_eq!(modules_to_unload(listing), vec!["20", "22"]);
}

#[test]
fn cleanup_takes_the_whole_line_when_it_has_no_tab() {
    assert_eq!(modules_to_unload("beacn_link_plain"), vec!["beacn_link_plain"]);
}

#[test]
fn cleanup_of_an_empty_listing_selects_nothing() {
    assert_eq!(modules_to_unload(""), Vec::<String>::new());
}

#[test]
fn cleanup_reports_success_whatever_the_unload_outcomes() {
    assert!(cleanup_virtual_devices(&vec![]));
    assert!(cleanup_virtual_devices(&vec![false, false, false]));
    assert!(cleanup_virtual_devices(&vec![true, false, true]));
}
