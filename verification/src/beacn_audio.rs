//! The device enumerator and the virtual device manager.
//!
//! Every operation of the tool spawns the audio client once and reads its
//! text output.  The functions here hold the whole of the logic:
//! what a listing line means, which arguments a module-load command gets,
//! and how the link-output creation run proceeds.  The process layer hands
//! them the listing texts and the outcome of each spawned command.

use vstd::prelude::*;

use crate::text::{lines_of, split_lines, split_on, split_on_char, views_of};

verus! {

use vstd::string::StringExecFns;

/// A playback or capture endpoint as reported by the audio server.
pub struct AudioDevice {
    pub name: String,
    pub id: String,
    pub description: String,
    pub is_output: bool,
}

/// The mathematical content of an [`AudioDevice`].
pub struct DeviceModel {
    pub name: Seq<char>,
    pub id: Seq<char>,
    pub description: Seq<char>,
    pub is_output: bool,
}

impl View for AudioDevice {
    type V = DeviceModel;

    open spec fn view(&self) -> DeviceModel {
        DeviceModel {
            name: self.name@,
            id: self.id@,
            description: self.description@,
            is_output: self.is_output,
        }
    }
}

/// The views of a sequence of devices.
pub open spec fn device_views(devices: Seq<AudioDevice>) -> Seq<DeviceModel> {
    devices.map_values(|d: AudioDevice| d@)
}

/// A listing line holds a device record when it has at least two
/// tab-separated fields.
pub open spec fn well_formed_line(line: Seq<char>) -> bool {
    split_on(line, '\t').len() >= 2
}

/// The device a listing line describes: its first field is the identifier,
/// its second the name, its third (when present) the description.  A line
/// with fewer than two fields describes no device.
pub open spec fn device_of_line(line: Seq<char>, is_output: bool) -> Option<DeviceModel> {
    let parts = split_on(line, '\t');
    if parts.len() >= 2 {
        Some(
            DeviceModel {
                id: parts[0],
                name: parts[1],
                description: if parts.len() >= 3 {
                    parts[2]
                } else {
                    Seq::empty()
                },
                is_output: is_output,
            },
        )
    } else {
        None
    }
}

/// The devices of a sequence of listing lines, in order, lines without a
/// device skipped.
pub open spec fn devices_of_lines(lines: Seq<Seq<char>>, is_output: bool) -> Seq<DeviceModel> {
    lines.filter_map(|l: Seq<char>| device_of_line(l, is_output))
}

/// The devices of one listing text.
pub open spec fn devices_of_listing(text: Seq<char>, is_output: bool) -> Seq<DeviceModel> {
    devices_of_lines(split_lines(text), is_output)
}

/// Parses one listing line into a device record.
pub fn parse_device_line(line: &str, is_output: bool) -> (device: Option<AudioDevice>)
    ensures
        match device_of_line(line@, is_output) {
            Some(m) => device is Some && device->Some_0@ == m,
            None => device is None,
        },
{
    let parts = split_on_char(line, '\t');
    proof {
        assert(views_of(parts@).len() == parts@.len());
    }
    if parts.len() >= 2 {
        let description = if parts.len() >= 3 {
            parts[2].clone()
        } else {
            String::new()
        };
        Some(
            AudioDevice {
                id: parts[0].clone(),
                name: parts[1].clone(),
                description,
                is_output,
            },
        )
    } else {
        None
    }
}

/// Parses a whole listing into device records, in listing order.
pub fn parse_device_listing(listing: &str, is_output: bool) -> (devices: Vec<AudioDevice>)
    ensures
        device_views(devices@) == devices_of_listing(listing@, is_output),
{
    let lines = lines_of(listing);
    let ghost line_views = views_of(lines@);
    let mut devices: Vec<AudioDevice> = Vec::new();
    proof {
        assert(device_views(devices@) =~~= devices_of_lines(line_views.take(0), is_output));
    }
    let mut i: usize = 0;
    while i < lines.len()
        invariant
            line_views == views_of(lines@),
            i <= lines@.len(),
            device_views(devices@) == devices_of_lines(line_views.take(i as int), is_output),
        decreases lines@.len() - i,
    {
        let ghost devices_before = devices@;
        match parse_device_line(lines[i].as_str(), is_output) {
            Some(device) => devices.push(device),
            None => {},
        }
        proof {
            let taken = line_views.take(i as int + 1);
            assert(taken.drop_last() =~~= line_views.take(i as int));
            assert(taken.last() == line_views[i as int]);
            match device_of_line(line_views[i as int], is_output) {
                Some(m) => {
                    assert(device_views(devices@) =~~= device_views(devices_before).push(m));
                    assert(devices_of_lines(taken, is_output) =~~= devices_of_lines(
                        taken.drop_last(),
                        is_output,
                    ) + seq![m]);
                    assert(device_views(devices_before).push(m) =~~= device_views(devices_before)
                        + seq![m]);
                },
                None => {
                    assert(devices_of_lines(taken, is_output) =~~= devices_of_lines(
                        taken.drop_last(),
                        is_output,
                    ));
                },
            }
        }
        i += 1;
    }
    proof {
        assert(line_views.take(line_views.len() as int) =~~= line_views);
    }
    devices
}

/// Every device of a listing carries the class of that listing.
pub proof fn lemma_listing_class(lines: Seq<Seq<char>>, is_output: bool)
    ensures
        forall|i: int|
            0 <= i < devices_of_lines(lines, is_output).len() ==> (#[trigger] devices_of_lines(
                lines,
                is_output,
            )[i]).is_output == is_output,
    decreases lines.len(),
{
    if lines.len() > 0 {
        lemma_listing_class(lines.drop_last(), is_output);
        let rest = devices_of_lines(lines.drop_last(), is_output);
        match device_of_line(lines.last(), is_output) {
            Some(m) => {
                assert(devices_of_lines(lines, is_output) == rest + seq![m]);
            },
            None => {
                assert(devices_of_lines(lines, is_output) == rest);
            },
        }
    }
}

/// A listing of well-formed lines yields one device per line.
pub proof fn lemma_well_formed_count(lines: Seq<Seq<char>>, is_output: bool)
    requires
        forall|i: int| 0 <= i < lines.len() ==> well_formed_line(#[trigger] lines[i]),
    ensures
        devices_of_lines(lines, is_output).len() == lines.len(),
    decreases lines.len(),
{
    if lines.len() > 0 {
        lemma_well_formed_count(lines.drop_last(), is_output);
        assert(well_formed_line(lines.last()));
    }
}

/// Enumerating from listings whose lines are all well formed yields one
/// record per line, the sink records first with their output flag set, the
/// source records after them with it cleared.
pub proof fn lemma_enumeration(sinks_listing: Seq<char>, sources_listing: Seq<char>)
    requires
        forall|i: int|
            0 <= i < split_lines(sinks_listing).len() ==> well_formed_line(
                #[trigger] split_lines(sinks_listing)[i],
            ),
        forall|i: int|
            0 <= i < split_lines(sources_listing).len() ==> well_formed_line(
                #[trigger] split_lines(sources_listing)[i],
            ),
    ensures
        ({
            let all = devices_of_listing(sinks_listing, true) + devices_of_listing(
                sources_listing,
                false,
            );
            let n = split_lines(sinks_listing).len();
            let m = split_lines(sources_listing).len();
            &&& all.len() == n + m
            &&& forall|i: int| 0 <= i < n ==> (#[trigger] all[i]).is_output
            &&& forall|i: int| n <= i < n + m ==> !(#[trigger] all[i]).is_output
        }),
{
    lemma_well_formed_count(split_lines(sinks_listing), true);
    lemma_well_formed_count(split_lines(sources_listing), false);
    lemma_listing_class(split_lines(sinks_listing), true);
    lemma_listing_class(split_lines(sources_listing), false);
}

/// A line with fewer than two tab-separated fields contributes no record:
/// the enumeration of a listing with it equals the enumeration without it.
pub proof fn lemma_malformed_line_excluded(lines: Seq<Seq<char>>, k: int, is_output: bool)
    requires
        0 <= k < lines.len(),
        !well_formed_line(lines[k]),
    ensures
        devices_of_lines(lines, is_output) == devices_of_lines(lines.remove(k), is_output),
    decreases lines.len(),
{
    if k == lines.len() - 1 {
        assert(lines.remove(k) =~~= lines.drop_last());
        assert(device_of_line(lines.last(), is_output) is None);
    } else {
        lemma_malformed_line_excluded(lines.drop_last(), k, is_output);
        assert(lines.remove(k).drop_last() =~~= lines.drop_last().remove(k));
        assert(lines.remove(k).last() == lines.last());
    }
}

/// The argument list that creates a named virtual sink.  Its third entry
/// names the sink and its fourth gives it a quoted description.
pub open spec fn null_sink_command(name: Seq<char>) -> Seq<Seq<char>> {
    seq![
        "load-module"@,
        "module-null-sink"@,
        "sink_name="@ + name,
        "sink_properties=device.description=\""@ + name + "\""@,
    ]
}

/// The argument list that routes a named source to a named sink.
pub open spec fn loopback_command(source: Seq<char>, destination: Seq<char>) -> Seq<Seq<char>> {
    seq!["load-module"@, "module-loopback"@, "source="@ + source, "sink="@ + destination]
}

/// Builds the argument list of the command that creates a virtual sink.
pub fn null_sink_args(name: &str) -> (args: Vec<String>)
    ensures
        views_of(args@) == null_sink_command(name@),
{
    let mut args: Vec<String> = Vec::new();
    args.push("load-module".to_owned());
    args.push("module-null-sink".to_owned());
    args.push(String::from_str("sink_name=").concat(name));
    args.push(
        String::from_str("sink_properties=device.description=\"").concat(name).concat("\""),
    );
    proof {
        assert(views_of(args@) =~~= null_sink_command(name@));
    }
    args
}

/// Builds the argument list of the command that routes a source to a sink.
pub fn loopback_args(source: &str, destination: &str) -> (args: Vec<String>)
    ensures
        views_of(args@) == loopback_command(source@, destination@),
{
    let mut args: Vec<String> = Vec::new();
    args.push("load-module".to_owned());
    args.push("module-loopback".to_owned());
    args.push(String::from_str("source=").concat(source));
    args.push(String::from_str("sink=").concat(destination));
    proof {
        assert(views_of(args@) =~~= loopback_command(source@, destination@));
    }
    args
}

/// The manager of the virtual devices.  It remembers whether a server
/// context has been set up; every module-load operation is gated on that.
pub struct BeacnLink {
    initialized: bool,
}

impl BeacnLink {
    /// Whether a server context has been set up.
    pub closed spec fn is_initialized(&self) -> bool {
        self.initialized
    }

    /// A fresh manager with no server context.
    pub fn new() -> (link: BeacnLink)
        ensures
            !link.is_initialized(),
    {
        BeacnLink { initialized: false }
    }

    /// Records the outcome of setting up the server connection.  The process
    /// layer reports whether the server answered the liveness check and
    /// whether the native context handle could be constructed; the attempt
    /// succeeds exactly when both held, and a failed attempt leaves an
    /// earlier context in place.
    pub fn initialize(&mut self, pulse_running: bool, context_created: bool) -> (ok: bool)
        ensures
            ok == (pulse_running && context_created),
            final(self).is_initialized() == (ok || old(self).is_initialized()),
    {
        if !pulse_running {
            return false;
        }
        if !context_created {
            return false;
        }
        self.initialized = true;
        true
    }

    /// The devices of the two listings: the sink records first, the source
    /// records after them.
    pub fn get_audio_devices(&self, sinks_listing: &str, sources_listing: &str) -> (devices: Vec<
        AudioDevice,
    >)
        ensures
            device_views(devices@) == devices_of_listing(sinks_listing@, true)
                + devices_of_listing(sources_listing@, false),
    {
        let mut devices = parse_device_listing(sinks_listing, true);
        let ghost sink_part = devices@;
        let mut sources = parse_device_listing(sources_listing, false);
        let ghost source_part = sources@;
        devices.append(&mut sources);
        proof {
            assert(device_views(sink_part + source_part) =~~= device_views(sink_part)
                + device_views(source_part));
        }
        devices
    }

    /// The command that creates the named virtual sink, or `None` when no
    /// server context has been set up, in which case nothing is run and the
    /// operation has failed.
    pub fn create_virtual_output(&self, name: String) -> (command: Option<Vec<String>>)
        ensures
            match command {
                Some(args) => self.is_initialized() && views_of(args@) == null_sink_command(
                    name@,
                ),
                None => !self.is_initialized(),
            },
    {
        if self.initialized {
            Some(null_sink_args(name.as_str()))
        } else {
            None
        }
    }

    /// Starts the run that creates the four fixed link outputs.  The caller
    /// asks the run for each output in turn, performs the creation through
    /// [`Self::create_virtual_output`], and records its outcome; the run
    /// stops at the first failure.
    pub fn create_link_outputs(&self) -> (run: crate::link_outputs::LinkOutputsRun)
        ensures
            run == crate::link_outputs::initial_run(),
            run.spec_created() == 0,
            !run.has_failed(),
            run.wf(),
    {
        crate::link_outputs::LinkOutputsRun::new()
    }

    /// The command that routes the named source to the named sink, or `None`
    /// when no server context has been set up.
    pub fn route_audio(&self, source: String, destination: String) -> (command: Option<
        Vec<String>,
    >)
        ensures
            match command {
                Some(args) => self.is_initialized() && views_of(args@) == loopback_command(
                    source@,
                    destination@,
                ),
                None => !self.is_initialized(),
            },
    {
        if self.initialized {
            Some(loopback_args(source.as_str(), destination.as_str()))
        } else {
            None
        }
    }
}

} // verus!
