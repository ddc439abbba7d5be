//! Audio capture from Spotify Desktop through PipeWire: what is read off its
//! graph, and the commands that change it.
//!
//! A virtual null sink is created, Spotify's audio is redirected to it, and the
//! sink's monitor is recorded, so that no sound plays through the speakers.
use crate::codec;
use crate::json;
use crate::json::{Json, JsonView};
use crate::output;
use crate::output::{Arg, ArgView, Format};
use crate::text;
use std::path::PathBuf;
use vstd::prelude::*;

verus! {

/// A virtual null sink of PipeWire.
#[derive(Debug)]
pub struct NullSink {
    pub node_id: u32,
    pub name: String,
}

/// Spotify's audio stream in PipeWire.
#[derive(Clone, Debug)]
pub struct SpotifyStream {
    pub node_id: u32,
    pub output_port_ids: Vec<u32>,
    pub original_target: Option<u32>,
}

/// Why PipeWire cannot be used.
#[derive(Debug, PartialEq, Eq)]
pub enum PipewireError {
    /// `pw-dump` printed no list of objects.
    BadDump(String),
    /// Spotify plays nothing.
    NoStream,
    /// The null sink was not created, and this is what was complained of.
    NotCreated(String),
    /// The null sink that was created is not there.
    NoSink,
    /// The default sink could not be looked at.
    NotInspected,
    /// There is no default sink.
    NoDefaultSink,
}

impl PipewireError {
    /// The words of the error.
    pub open spec fn words(self) -> Seq<char> {
        match self {
            PipewireError::BadDump(words) => "Failed to parse pw-dump output: "@ + words@,
            PipewireError::NoStream =>
                "Spotify audio stream not found in PipeWire. Make sure Spotify Desktop is running and playing audio"@,
            PipewireError::NotCreated(words) => "Failed to create null sink: "@ + words@,
            PipewireError::NoSink => "Could not find created null sink in pw-dump"@,
            PipewireError::NotInspected => "Could not inspect default audio sink"@,
            PipewireError::NoDefaultSink => "Could not determine default sink ID"@,
        }
    }

    /// The error in words.
    pub fn message(&self) -> (r: String)
        ensures
            r@ == self.words(),
    {
        match self {
            PipewireError::BadDump(words) => "Failed to parse pw-dump output: ".to_owned().concat(
                words.as_str(),
            ),
            PipewireError::NoStream =>
                "Spotify audio stream not found in PipeWire. Make sure Spotify Desktop is running and playing audio".to_owned(),
            PipewireError::NotCreated(words) => "Failed to create null sink: ".to_owned().concat(
                words.as_str(),
            ),
            PipewireError::NoSink => "Could not find created null sink in pw-dump".to_owned(),
            PipewireError::NotInspected => "Could not inspect default audio sink".to_owned(),
            PipewireError::NoDefaultSink => "Could not determine default sink ID".to_owned(),
        }
    }
}

// ---------------------------------------------------------------------------
// The objects of the graph
// ---------------------------------------------------------------------------

/// The objects in the output of `pw-dump`, which must be a JSON array.
pub fn parse_dump(dump: &[u8]) -> (r: Result<Vec<Json>, PipewireError>)
    ensures
        match r {
            Ok(objects) => json::array_of_bytes(dump@) == Ok::<JsonView, Seq<char>>(
                JsonView::Array(json::documents(objects@)),
            ),
            Err(PipewireError::BadDump(words)) => json::array_of_bytes(dump@) == Err::<
                JsonView,
                Seq<char>,
            >(words@),
            Err(_) => false,
        },
{
    match json::parse_array(dump) {
        Ok(objects) => Ok(objects),
        Err(words) => Err(PipewireError::BadDump(words)),
    }
}

/// The properties of an object.
pub open spec fn props(object: JsonView) -> JsonView {
    object.at("info"@).at("props"@)
}

/// The node that a number names: PipeWire's identifiers have thirty-two bits.
pub open spec fn node(id: u64) -> u32 {
    (id % 0x1_0000_0000) as u32
}

/// The identifier of an object.
pub open spec fn object_node(object: JsonView) -> Option<u32> {
    match object.at("id"@).number() {
        Some(id) => Some(node(id)),
        None => None,
    }
}

/// A property that says `spotify`, in capitals or not.
pub open spec fn says_spotify(object: JsonView, key: Seq<char>) -> bool {
    props(object).at(key).text() is Some && text::lowered(props(object).at(key).text()->0)
        == text::lowered("spotify"@)
}

/// An object that is Spotify's output of audio.
pub open spec fn is_spotify(object: JsonView) -> bool {
    &&& says_spotify(object, "application.name"@) || says_spotify(object, "node.name"@)
    &&& props(object).at("media.class"@).text() == Some("Stream/Output/Audio"@)
}

/// The node of the first object that is Spotify's output of audio.
pub open spec fn spotify_node(objects: Seq<JsonView>) -> Option<u32>
    decreases objects.len(),
{
    if objects.len() == 0 {
        None
    } else if is_spotify(objects[0]) && object_node(objects[0]) is Some {
        object_node(objects[0])
    } else {
        spotify_node(objects.drop_first())
    }
}

/// An object that belongs to a node.
pub open spec fn belongs(object: JsonView, node_id: u32) -> bool {
    props(object).at("node.id"@).number() == Some(node_id as u64)
}

/// The port that an object is, if it is an output of a node.
pub open spec fn output_port(object: JsonView, node_id: u32) -> Option<u32> {
    if belongs(object, node_id) && props(object).at("port.direction"@).text() == Some("out"@) {
        object_node(object)
    } else {
        None
    }
}

/// The outputs of a node, in the order of the objects.
pub open spec fn output_ports(objects: Seq<JsonView>, node_id: u32) -> Seq<u32>
    decreases objects.len(),
{
    if objects.len() == 0 {
        Seq::empty()
    } else {
        let before = output_ports(objects.drop_last(), node_id);
        match output_port(objects.last(), node_id) {
            Some(port) => before.push(port),
            None => before,
        }
    }
}

/// Where an object says that the audio of a node goes.
pub open spec fn target_in(object: JsonView, node_id: u32) -> Option<u32> {
    if belongs(object, node_id) {
        match props(object).at("target.node"@).number() {
            Some(target) => Some(node(target)),
            None => match props(object).at("node.target"@).number() {
                Some(target) => Some(node(target)),
                None => None,
            },
        }
    } else {
        None
    }
}

/// Where the first object that says so has the audio of a node go.
pub open spec fn target(objects: Seq<JsonView>, node_id: u32) -> Option<u32>
    decreases objects.len(),
{
    if objects.len() == 0 {
        None
    } else if target_in(objects[0], node_id) is Some {
        target_in(objects[0], node_id)
    } else {
        target(objects.drop_first(), node_id)
    }
}

/// The node of the first object with this name.
pub open spec fn node_called(objects: Seq<JsonView>, name: Seq<char>) -> Option<u32>
    decreases objects.len(),
{
    if objects.len() == 0 {
        None
    } else if props(objects[0]).at("node.name"@).text() == Some(name) && object_node(
        objects[0],
    ) is Some {
        object_node(objects[0])
    } else {
        node_called(objects.drop_first(), name)
    }
}

fn read_props(object: &Json) -> (r: Option<&Json>)
    ensures
        match r {
            Some(p) => p@ == props(object@),
            None => props(object@) == JsonView::Null,
        },
{
    match object.get("info") {
        Some(info) => info.get("props"),
        None => None,
    }
}

fn read_node(id: u64) -> (r: u32)
    ensures
        r == node(id),
{
    (id % 0x1_0000_0000) as u32
}

fn read_object_node(object: &Json) -> (r: Option<u32>)
    ensures
        r == object_node(object@),
{
    match object.number_at("id") {
        Some(id) => Some(read_node(id)),
        None => None,
    }
}

fn prop_text<'a>(object: &'a Json, key: &str) -> (r: Option<&'a String>)
    ensures
        match r {
            Some(s) => props(object@).at(key@).text() == Some(s@),
            None => props(object@).at(key@).text() is None,
        },
{
    match read_props(object) {
        Some(p) => p.text_at(key),
        None => None,
    }
}

fn prop_number(object: &Json, key: &str) -> (r: Option<u64>)
    ensures
        r == props(object@).at(key@).number(),
{
    match read_props(object) {
        Some(p) => p.number_at(key),
        None => None,
    }
}

fn prop_is(object: &Json, key: &str, word: &str) -> (r: bool)
    ensures
        r == (props(object@).at(key@).text() == Some(word@)),
{
    match prop_text(object, key) {
        Some(s) => text::same(s.as_str(), word),
        None => false,
    }
}

fn read_says_spotify(object: &Json, key: &str) -> (r: bool)
    ensures
        r == says_spotify(object@, key@),
{
    match prop_text(object, key) {
        Some(s) => text::same_ignoring_case(s.as_str(), "spotify"),
        None => false,
    }
}

fn read_spotify_node(objects: &Vec<Json>) -> (r: Option<u32>)
    ensures
        r == spotify_node(json::documents(objects@)),
{
    let ghost all = json::documents(objects@);
    assert(all.skip(0) =~= all);
    for i in 0..objects.len()
        invariant
            all == json::documents(objects@),
            spotify_node(all) == spotify_node(all.skip(i as int)),
    {
        let object = &objects[i];
        assert(all.skip(i as int)[0] == object@);
        if (read_says_spotify(object, "application.name") || read_says_spotify(object, "node.name"))
            && prop_is(object, "media.class", "Stream/Output/Audio") {
            if let Some(id) = read_object_node(object) {
                return Some(id);
            }
        }
        assert(all.skip(i as int).drop_first() =~= all.skip(i as int + 1));
    }
    None
}

fn read_output_ports(objects: &Vec<Json>, node_id: u32) -> (r: Vec<u32>)
    ensures
        r@ == output_ports(json::documents(objects@), node_id),
{
    let ghost all = json::documents(objects@);
    let mut ports: Vec<u32> = Vec::new();
    assert(all.take(0) =~= Seq::empty());
    for i in 0..objects.len()
        invariant
            all == json::documents(objects@),
            ports@ == output_ports(all.take(i as int), node_id),
    {
        let object = &objects[i];
        let ghost next = all.take(i as int + 1);
        assert(next.drop_last() =~= all.take(i as int));
        assert(next.last() == object@);
        if prop_number(object, "node.id") == Some(node_id as u64) {
            if prop_is(object, "port.direction", "out") {
                if let Some(id) = read_object_node(object) {
                    ports.push(id);
                }
            }
        }
    }
    assert(all.take(all.len() as int) =~= all);
    ports
}

fn read_target(objects: &Vec<Json>, node_id: u32) -> (r: Option<u32>)
    ensures
        r == target(json::documents(objects@), node_id),
{
    let ghost all = json::documents(objects@);
    assert(all.skip(0) =~= all);
    for i in 0..objects.len()
        invariant
            all == json::documents(objects@),
            target(all, node_id) == target(all.skip(i as int), node_id),
    {
        let object = &objects[i];
        assert(all.skip(i as int)[0] == object@);
        if prop_number(object, "node.id") == Some(node_id as u64) {
            if let Some(id) = prop_number(object, "target.node") {
                return Some(read_node(id));
            }
            if let Some(id) = prop_number(object, "node.target") {
                return Some(read_node(id));
            }
        }
        assert(all.skip(i as int).drop_first() =~= all.skip(i as int + 1));
    }
    None
}

/// Finds Spotify's audio output among the objects of PipeWire: its node, the
/// ports of that node, and where its audio goes.
pub fn find_spotify_stream(objects: &Vec<Json>) -> (r: Result<SpotifyStream, PipewireError>)
    ensures
        match r {
            Ok(stream) => {
                let all = json::documents(objects@);
                &&& spotify_node(all) == Some(stream.node_id)
                &&& stream.output_port_ids@ == output_ports(all, stream.node_id)
                &&& stream.original_target == target(all, stream.node_id)
            },
            Err(e) => e == PipewireError::NoStream && spotify_node(json::documents(objects@))
                is None,
        },
{
    match read_spotify_node(objects) {
        Some(node_id) => Ok(
            SpotifyStream {
                node_id,
                output_port_ids: read_output_ports(objects, node_id),
                original_target: read_target(objects, node_id),
            },
        ),
        None => Err(PipewireError::NoStream),
    }
}

/// The stream that is found is Spotify's output of audio, and the first one; none is
/// found only where there is none.
pub proof fn law_stream_is_spotify(objects: Seq<JsonView>)
    ensures
        match spotify_node(objects) {
            Some(id) => exists|i: int|
                0 <= i < objects.len() && is_spotify(#[trigger] objects[i]) && object_node(
                    objects[i],
                ) == Some(id) && forall|j: int|
                    0 <= j < i ==> !(is_spotify(#[trigger] objects[j]) && object_node(
                        objects[j],
                    ) is Some),
            None => forall|i: int|
                0 <= i < objects.len() ==> !(is_spotify(#[trigger] objects[i]) && object_node(
                    objects[i],
                ) is Some),
        },
    decreases objects.len(),
{
    if objects.len() > 0 {
        let rest = objects.drop_first();
        if is_spotify(objects[0]) && object_node(objects[0]) is Some {
        } else {
            law_stream_is_spotify(rest);
            match spotify_node(rest) {
                Some(id) => {
                    let i = choose|i: int|
                        0 <= i < rest.len() && is_spotify(#[trigger] rest[i]) && object_node(
                            rest[i],
                        ) == Some(id) && forall|j: int|
                            0 <= j < i ==> !(is_spotify(#[trigger] rest[j]) && object_node(
                                rest[j],
                            ) is Some);
                    assert(objects[i + 1] == rest[i]);
                    assert forall|j: int| 0 <= j < i + 1 implies !(is_spotify(
                        #[trigger] objects[j],
                    ) && object_node(objects[j]) is Some) by {
                        if j > 0 {
                            assert(rest[j - 1] == objects[j]);
                        }
                    }
                },
                None => {
                    assert forall|i: int| 0 <= i < objects.len() implies !(is_spotify(
                        #[trigger] objects[i],
                    ) && object_node(objects[i]) is Some) by {
                        if i > 0 {
                            assert(rest[i - 1] == objects[i]);
                        }
                    }
                },
            }
        }
    }
}

/// The ports of a node are those objects that are its outputs, and no others.
pub proof fn law_ports_are_outputs(objects: Seq<JsonView>, node_id: u32, port: u32)
    ensures
        output_ports(objects, node_id).contains(port) <==> exists|i: int|
            0 <= i < objects.len() && output_port(#[trigger] objects[i], node_id) == Some(port),
    decreases objects.len(),
{
    if objects.len() > 0 {
        let before = objects.drop_last();
        let earlier = output_ports(before, node_id);
        let all = output_ports(objects, node_id);
        law_ports_are_outputs(before, node_id, port);
        if all.contains(port) {
            if earlier.contains(port) {
                let i = choose|i: int|
                    0 <= i < before.len() && output_port(#[trigger] before[i], node_id) == Some(
                        port,
                    );
                assert(objects[i] == before[i]);
            } else {
                let k = choose|k: int| 0 <= k < all.len() && all[k] == port;
                if k < earlier.len() {
                    assert(earlier[k] == port);
                }
                assert(output_port(objects[objects.len() - 1], node_id) == Some(port));
            }
        }
        if exists|i: int|
            0 <= i < objects.len() && output_port(#[trigger] objects[i], node_id) == Some(port) {
            let i = choose|i: int|
                0 <= i < objects.len() && output_port(#[trigger] objects[i], node_id) == Some(port);
            if i < before.len() {
                assert(before[i] == objects[i]);
                let k = choose|k: int| 0 <= k < earlier.len() && earlier[k] == port;
                assert(all[k] == port);
            } else {
                assert(all[all.len() - 1] == port);
            }
        }
    }
}

// ---------------------------------------------------------------------------
// The null sink
// ---------------------------------------------------------------------------

/// The name of the null sink of a process.
pub open spec fn sink_called(process: nat) -> Seq<char> {
    "spotcapture_sink_"@ + text::decimal(process)
}

/// The name of the null sink of a process.
pub fn sink_name(process: u32) -> (r: String)
    ensures
        r@ == sink_called(process as nat),
{
    "spotcapture_sink_".to_owned().concat(text::number(process as u128).as_str())
}

/// Two processes never name their null sinks alike.
pub proof fn law_sink_name_is_unique(a: nat, b: nat)
    requires
        sink_called(a) == sink_called(b),
    ensures
        a == b,
{
    let head = "spotcapture_sink_"@;
    assert(sink_called(a).skip(head.len() as int) =~= text::decimal(a));
    assert(sink_called(b).skip(head.len() as int) =~= text::decimal(b));
    text::lemma_decimal_plain(a, '.');
    text::lemma_decimal_plain(b, '.');
}

/// The arguments of the `pw-cli` that creates the null sink `name`.
pub fn create_sink_args(name: &str) -> (r: Vec<String>)
    ensures
        text::views(r@) == seq![
            "create-node"@,
            "adapter"@,
            "{ \"factory.name\": \"support.null-audio-sink\", \"node.name\": \""@ + name@
                + "\", \"media.class\": \"Audio/Sink\", \"object.linger\": true, \"audio.position\": \"[FL,FR]\", \"monitor.channel-volumes\": true }"@,
        ],
{
    let properties =
        "{ \"factory.name\": \"support.null-audio-sink\", \"node.name\": \"".to_owned().concat(
        name,
    ).concat(
        "\", \"media.class\": \"Audio/Sink\", \"object.linger\": true, \"audio.position\": \"[FL,FR]\", \"monitor.channel-volumes\": true }",
    );
    let r = text::list(&["create-node", "adapter", properties.as_str()]);
    assert(text::views(r@) =~= seq!["create-node"@, "adapter"@, properties@]);
    r
}

/// Whether a null sink was created, going by how `pw-cli` ended and what it
/// complained of.
pub fn creation_outcome(success: bool, stderr: &[u8]) -> (r: Result<(), PipewireError>)
    ensures
        match r {
            Ok(_) => success,
            Err(PipewireError::NotCreated(words)) => !success && words@ == codec::utf8_lossy(
                stderr@,
            ),
            Err(_) => false,
        },
{
    if success {
        Ok(())
    } else {
        Err(PipewireError::NotCreated(codec::read_lossy(stderr)))
    }
}

/// Finds the null sink that was created under this name.
pub fn create_null_sink(objects: &Vec<Json>, name: String) -> (r: Result<NullSink, PipewireError>)
    ensures
        match r {
            Ok(sink) => sink.name == name && node_called(json::documents(objects@), name@) == Some(
                sink.node_id,
            ),
            Err(e) => e == PipewireError::NoSink && node_called(json::documents(objects@), name@)
                is None,
        },
{
    let ghost all = json::documents(objects@);
    assert(all.skip(0) =~= all);
    for i in 0..objects.len()
        invariant
            all == json::documents(objects@),
            node_called(all, name@) == node_called(all.skip(i as int), name@),
    {
        let object = &objects[i];
        assert(all.skip(i as int)[0] == object@);
        if prop_is(object, "node.name", name.as_str()) {
            if let Some(node_id) = read_object_node(object) {
                return Ok(NullSink { node_id, name });
            }
        }
        assert(all.skip(i as int).drop_first() =~= all.skip(i as int + 1));
    }
    Err(PipewireError::NoSink)
}

/// The arguments of the `pw-cli` that destroys a null sink.
pub fn destroy_null_sink(sink: &NullSink) -> (r: Vec<String>)
    ensures
        text::views(r@) == seq!["destroy"@, text::decimal(sink.node_id as nat)],
{
    let id = text::number(sink.node_id as u128);
    let r = text::list(&["destroy", id.as_str()]);
    assert(text::views(r@) =~= seq!["destroy"@, text::decimal(sink.node_id as nat)]);
    r
}

// ---------------------------------------------------------------------------
// Redirecting audio
// ---------------------------------------------------------------------------

/// The commands that redirect a stream.
pub struct Redirection {
    /// The arguments of `wpctl` that make the sink the default.
    pub set_default: Vec<String>,
    /// The arguments of `pw-metadata` that set the target of the stream.
    pub set_target: Vec<String>,
    /// The arguments of `pw-metadata` to try where that failed.
    pub otherwise: Vec<String>,
}

/// The arguments of the `pw-metadata` that sends a stream to a sink.
pub open spec fn target_args(stream: u32, sink: u32) -> Seq<Seq<char>> {
    seq![
        text::decimal(stream as nat),
        "target.node"@,
        text::decimal(sink as nat),
        "Spa:Id"@,
    ]
}

/// The arguments of the `pw-metadata` that takes a stream's target away.
pub open spec fn delete_args(stream: u32) -> Seq<Seq<char>> {
    seq!["-d"@, text::decimal(stream as nat), "target.node"@]
}

/// The commands that redirect Spotify's audio to a sink.
pub fn redirect_to_sink(stream: &SpotifyStream, sink: &NullSink) -> (r: Redirection)
    ensures
        text::views(r.set_default@) == seq!["set-default"@, text::decimal(sink.node_id as nat)],
        text::views(r.set_target@) == target_args(stream.node_id, sink.node_id),
        text::views(r.otherwise@) == seq![
            "0"@,
            "target.node."@ + text::decimal(stream.node_id as nat),
            text::decimal(sink.node_id as nat),
            "Spa:Id"@,
        ],
{
    let from = text::number(stream.node_id as u128);
    let to = text::number(sink.node_id as u128);
    let key = "target.node.".to_owned().concat(from.as_str());
    let set_default = text::list(&["set-default", to.as_str()]);
    let set_target = text::list(&[from.as_str(), "target.node", to.as_str(), "Spa:Id"]);
    let otherwise = text::list(&["0", key.as_str(), to.as_str(), "Spa:Id"]);
    assert(text::views(set_default@) =~= seq!["set-default"@, to@]);
    assert(text::views(set_target@) =~= target_args(stream.node_id, sink.node_id));
    assert(text::views(otherwise@) =~= seq!["0"@, key@, to@, "Spa:Id"@]);
    Redirection { set_default, set_target, otherwise }
}

/// The two commands that send Spotify's audio back to the default output: the
/// arguments of the `pw-metadata` that clears its target, and of the one that
/// deletes the entry.
pub fn restore_audio(stream: &SpotifyStream) -> (r: (Vec<String>, Vec<String>))
    ensures
        text::views(r.0@) == seq![
            text::decimal(stream.node_id as nat),
            "target.node"@,
            ""@,
            ""@,
        ],
        text::views(r.1@) == delete_args(stream.node_id),
{
    let id = text::number(stream.node_id as u128);
    let clear = text::list(&[id.as_str(), "target.node", "", ""]);
    let delete = text::list(&["-d", id.as_str(), "target.node"]);
    assert(text::views(clear@) =~= seq![id@, "target.node"@, ""@, ""@]);
    assert(text::views(delete@) =~= delete_args(stream.node_id));
    (clear, delete)
}

/// What restoring deletes is the very entry that redirecting set: the same key
/// of the same stream.
pub proof fn law_restoring_undoes_redirecting(stream: u32, sink: u32)
    ensures
        delete_args(stream) == seq!["-d"@] + target_args(stream, sink).take(2),
{
    assert(delete_args(stream) =~= seq!["-d"@] + target_args(stream, sink).take(2));
}

// ---------------------------------------------------------------------------
// Recording
// ---------------------------------------------------------------------------

/// The format that a word stands for on the way to FFmpeg; anything unknown is
/// recorded as MP3.
pub open spec fn recorded_as(word: Seq<char>) -> Format {
    if word == "flac"@ {
        Format::Flac
    } else if word == "wav"@ {
        Format::Wav
    } else {
        Format::Mp3
    }
}

/// The arguments of the FFmpeg that records the monitor of a sink.
pub open spec fn capture_args(
    sink: Seq<char>,
    output_path: PathBuf,
    format: Format,
    label: Seq<char>,
) -> Seq<ArgView> {
    output::words(
        seq![
            "-hide_banner"@,
            "-loglevel"@,
            "error"@,
            "-nostats"@,
            "-nostdin"@,
            "-y"@,
            "-f"@,
            "pulse"@,
            "-i"@,
            sink + ".monitor"@,
            "-ar"@,
            "44100"@,
            "-ac"@,
            "2"@,
        ],
    ) + output::codec_args(format, label) + output::words(
        seq!["-f"@, output::extension_of(format)],
    ) + output::path(output_path)
}

/// The arguments of the FFmpeg that records a sink into a file, in a format that
/// is given by its extension and with a bitrate in kilobits per second.
pub fn start_ffmpeg_capture<'a>(
    sink: &NullSink,
    output_path: &'a PathBuf,
    format: &str,
    bitrate: &str,
) -> (r: Vec<Arg<'a>>)
    ensures
        output::args_view(r@) == capture_args(
            sink.name@,
            *output_path,
            recorded_as(format@),
            bitrate@ + "k"@,
        ),
{
    let label = bitrate.to_owned().concat("k");
    let format = if text::same(format, "flac") {
        Format::Flac
    } else if text::same(format, "wav") {
        Format::Wav
    } else {
        Format::Mp3
    };
    let monitor = sink.name.clone().concat(".monitor");
    let mut args: Vec<Arg<'a>> = Vec::new();
    let input = [
        "-hide_banner",
        "-loglevel",
        "error",
        "-nostats",
        "-nostdin",
        "-y",
        "-f",
        "pulse",
        "-i",
        monitor.as_str(),
        "-ar",
        "44100",
        "-ac",
        "2",
    ];
    output::push_words(&mut args, &input);
    output::push_codec(&mut args, format, label.as_str());
    let muxer = ["-f", format.extension()];
    output::push_words(&mut args, &muxer);
    output::push_path(&mut args, output_path);
    assert(text::slices(muxer@) =~= seq!["-f"@, output::extension_of(format)]);
    assert(text::slices(input@) =~= seq![
        "-hide_banner"@,
        "-loglevel"@,
        "error"@,
        "-nostats"@,
        "-nostdin"@,
        "-y"@,
        "-f"@,
        "pulse"@,
        "-i"@,
        monitor@,
        "-ar"@,
        "44100"@,
        "-ac"@,
        "2"@,
    ]);
    assert(output::args_view(args@) =~= capture_args(sink.name@, *output_path, format, label@));
    args
}

/// How long, in nanoseconds, FFmpeg is given to end by itself: five seconds.
pub const STOP_PATIENCE_NS: u128 = 5_000_000_000;

/// What to do about an FFmpeg that was asked to stop.
#[derive(Clone, Copy, Debug, PartialEq, Eq, Structural)]
pub enum Stopping {
    /// It has ended.
    Done,
    /// Kill it.
    Kill,
    /// Look again in a moment.
    Wait,
}

/// What to do about an FFmpeg that was asked to stop so many nanoseconds ago
/// and has ended or not.
pub fn stop(ended: bool, elapsed_ns: u128) -> (r: Stopping)
    ensures
        r == (if ended {
            Stopping::Done
        } else if elapsed_ns > STOP_PATIENCE_NS {
            Stopping::Kill
        } else {
            Stopping::Wait
        }),
{
    if ended {
        Stopping::Done
    } else if elapsed_ns > STOP_PATIENCE_NS {
        Stopping::Kill
    } else {
        Stopping::Wait
    }
}

// ---------------------------------------------------------------------------
// The default sink
// ---------------------------------------------------------------------------

/// The number in a line that says `id number, ...`.
pub open spec fn sink_in_line(line: Seq<char>) -> Option<u32> {
    match text::after_prefix(text::trim_white(line), "id "@) {
        Some(rest) => match text::parsed(
            text::trim_white(text::split(text::Charset::One(','), rest)[0]),
            u32::MAX as nat,
        ) {
            Some(n) => Some(n as u32),
            None => None,
        },
        None => None,
    }
}

/// The number in the first of `lines` that has one.
pub open spec fn sink_in_lines(lines: Seq<Seq<char>>) -> Option<u32>
    decreases lines.len(),
{
    if lines.len() == 0 {
        None
    } else if sink_in_line(lines[0]) is Some {
        sink_in_line(lines[0])
    } else {
        sink_in_lines(lines.drop_first())
    }
}

fn read_sink_in_line(line: &[char]) -> (r: Option<u32>)
    ensures
        r == sink_in_line(line@),
{
    match text::strip_prefix(text::trim(text::Charset::White, line), "id ") {
        Some(rest) => {
            let parts = text::split_at(text::Charset::One(','), rest);
            assert(text::runs(parts@)[0] == parts@[0]@);
            let digits = text::trim(text::Charset::White, parts[0].as_slice());
            match text::parse_number(digits, u32::MAX as u64) {
                Some(n) => Some(n as u32),
                None => None,
            }
        },
        None => None,
    }
}

/// The node of the default sink, read off what `wpctl inspect` says.
pub fn sink_id_in(output: &str) -> (r: Result<u32, PipewireError>)
    ensures
        match r {
            Ok(id) => sink_in_lines(text::lines(output@)) == Some(id),
            Err(e) => e == PipewireError::NoDefaultSink && sink_in_lines(text::lines(output@))
                is None,
        },
{
    let cs = text::chars_of(output);
    let lines = text::lines_of(cs.as_slice());
    let ghost all = text::lines(output@);
    assert(all.skip(0) =~= all);
    for i in 0..lines.len()
        invariant
            all == text::runs(lines@),
            all == text::lines(output@),
            sink_in_lines(all) == sink_in_lines(all.skip(i as int)),
    {
        assert(all.skip(i as int)[0] == lines@[i as int]@);
        if let Some(id) = read_sink_in_line(lines[i].as_slice()) {
            return Ok(id);
        }
        assert(all.skip(i as int).drop_first() =~= all.skip(i as int + 1));
    }
    Err(PipewireError::NoDefaultSink)
}

/// The node of the default sink, read off what `wpctl inspect` printed, if it ended
/// with success.
pub fn get_default_sink_id(success: bool, stdout: &[u8]) -> (r: Result<u32, PipewireError>)
    ensures
        match r {
            Ok(id) => success && sink_in_lines(text::lines(codec::utf8_lossy(stdout@))) == Some(id),
            Err(PipewireError::NotInspected) => !success,
            Err(e) => success && e == PipewireError::NoDefaultSink && sink_in_lines(
                text::lines(codec::utf8_lossy(stdout@)),
            ) is None,
        },
{
    if success {
        sink_id_in(codec::read_lossy(stdout).as_str())
    } else {
        Err(PipewireError::NotInspected)
    }
}

// ---------------------------------------------------------------------------
// Laws of the recording
// ---------------------------------------------------------------------------

/// A recording that is asked for by the extension of a format is made in that
/// format.
pub proof fn law_extension_names_its_format(format: Format)
    ensures
        recorded_as(output::extension_of(format)) == format,
{
    reveal_strlit("flac");
    reveal_strlit("wav");
    reveal_strlit("mp3");
    assert("flac"@.len() == 4 && "wav"@.len() == 3 && "mp3"@.len() == 3);
    assert("wav"@[0] == 'w' && "mp3"@[0] == 'm');
}

/// Whatever is recorded comes from the monitor of the sink, in CD quality, and
/// goes into the file: FFmpeg reads the monitor from PulseAudio, and its last
/// argument is the file, before it the container.
pub proof fn law_recording_reads_the_sink(
    sink: Seq<char>,
    output_path: PathBuf,
    word: Seq<char>,
    label: Seq<char>,
)
    ensures
        ({
            let args = capture_args(sink, output_path, recorded_as(word), label);
            let n = args.len() as int;
            &&& args[6] == ArgView::Text("-f"@)
            &&& args[7] == ArgView::Text("pulse"@)
            &&& args[8] == ArgView::Text("-i"@)
            &&& args[9] == ArgView::Text(sink + ".monitor"@)
            &&& output::followed(args, "-ar"@, "44100"@)
            &&& output::followed(args, "-ac"@, "2"@)
            &&& args.contains(ArgView::Text("-y"@))
            &&& args[n - 3] == ArgView::Text("-f"@)
            &&& args[n - 1] == ArgView::Path(output_path)
        }),
{
    let args = capture_args(sink, output_path, recorded_as(word), label);
    assert(args[5] == ArgView::Text("-y"@));
    assert(args[10] == ArgView::Text("-ar"@) && args[11] == ArgView::Text("44100"@));
    assert(args[12] == ArgView::Text("-ac"@) && args[13] == ArgView::Text("2"@));
}

/// Each word for a format leads to the codec and the container of that format:
/// `flac` to FLAC with samples of twenty-four bits, `wav` to WAV with such
/// samples, and `mp3`, like every other word, to MP3 with the bitrate.
pub proof fn law_recording_is_in_the_format(
    sink: Seq<char>,
    output_path: PathBuf,
    word: Seq<char>,
    label: Seq<char>,
)
    ensures
        ({
            let args = capture_args(sink, output_path, recorded_as(word), label);
            let n = args.len() as int;
            &&& word == "flac"@ ==> {
                &&& n == 25
                &&& output::followed(args, "-c:a"@, "flac"@)
                &&& output::followed(args, "-compression_level"@, "5"@)
                &&& output::followed(args, "-sample_fmt"@, "s32"@)
                &&& output::followed(args, "-bits_per_raw_sample"@, "24"@)
                &&& args[n - 2] == ArgView::Text("flac"@)
            }
            &&& word == "wav"@ ==> {
                &&& n == 19
                &&& output::followed(args, "-c:a"@, "pcm_s24le"@)
                &&& args[n - 2] == ArgView::Text("wav"@)
            }
            &&& word != "flac"@ && word != "wav"@ ==> {
                &&& n == 23
                &&& output::followed(args, "-c:a"@, "libmp3lame"@)
                &&& output::followed(args, "-b:a"@, label)
                &&& output::followed(args, "-id3v2_version"@, "3"@)
                &&& args[n - 2] == ArgView::Text("mp3"@)
            }
        }),
{
    reveal_strlit("flac");
    reveal_strlit("wav");
    assert("flac"@.len() == 4 && "wav"@.len() == 3);
    let args = capture_args(sink, output_path, recorded_as(word), label);
    assert(args[14] == ArgView::Text("-c:a"@));
    if word == "flac"@ {
        assert(args[15] == ArgView::Text("flac"@));
        assert(args[16] == ArgView::Text("-compression_level"@) && args[17] == ArgView::Text(
            "5"@,
        ));
        assert(args[18] == ArgView::Text("-sample_fmt"@) && args[19] == ArgView::Text("s32"@));
        assert(args[20] == ArgView::Text("-bits_per_raw_sample"@) && args[21] == ArgView::Text(
            "24"@,
        ));
    } else if word == "wav"@ {
        assert(args[15] == ArgView::Text("pcm_s24le"@));
    } else {
        assert(args[15] == ArgView::Text("libmp3lame"@));
        assert(args[16] == ArgView::Text("-b:a"@) && args[17] == ArgView::Text(label));
        assert(args[18] == ArgView::Text("-id3v2_version"@) && args[19] == ArgView::Text("3"@));
    }
}

// ---------------------------------------------------------------------------
// Laws of the objects of PipeWire
// ---------------------------------------------------------------------------

/// A text that is `spotify`, each letter a capital or not.
pub open spec fn spells_spotify(s: Seq<char>) -> bool {
    &&& s.len() == 7
    &&& s[0] == 's' || s[0] == 'S'
    &&& s[1] == 'p' || s[1] == 'P'
    &&& s[2] == 'o' || s[2] == 'O'
    &&& s[3] == 't' || s[3] == 'T'
    &&& s[4] == 'i' || s[4] == 'I'
    &&& s[5] == 'f' || s[5] == 'F'
    &&& s[6] == 'y' || s[6] == 'Y'
}

proof fn lemma_spells_spotify(s: Seq<char>)
    ensures
        spells_spotify(s) <==> text::lowered(s) == text::lowered("spotify"@),
{
    reveal_strlit("spotify");
    let small = text::lowered(s);
    let word = text::lowered("spotify"@);
    assert(word =~= "spotify"@);
    assert(small.len() == s.len());
    if s.len() == 7 {
        assert(small[0] == text::lower(s[0]) && small[1] == text::lower(s[1]) && small[2]
            == text::lower(s[2]) && small[3] == text::lower(s[3]) && small[4] == text::lower(s[4])
            && small[5] == text::lower(s[5]) && small[6] == text::lower(s[6]));
        assert(small =~= word <==> small[0] == 's' && small[1] == 'p' && small[2] == 'o' && small[3]
            == 't' && small[4] == 'i' && small[5] == 'f' && small[6] == 'y');
    }
}

/// An object is Spotify's output of audio exactly when its class is that of such
/// outputs and its application or its node is called `spotify`, in capitals or not.
pub proof fn law_what_is_spotify(object: JsonView)
    ensures
        ({
            let about = object.at("info"@).at("props"@);
            is_spotify(object) <==> about.at("media.class"@) == JsonView::Text(
                "Stream/Output/Audio"@,
            ) && ((about.at("application.name"@) is Text && spells_spotify(
                about.at("application.name"@)->Text_0,
            )) || (about.at("node.name"@) is Text && spells_spotify(
                about.at("node.name"@)->Text_0,
            )))
        }),
{
    let about = object.at("info"@).at("props"@);
    if about.at("application.name"@) is Text {
        lemma_spells_spotify(about.at("application.name"@)->Text_0);
    }
    if about.at("node.name"@) is Text {
        lemma_spells_spotify(about.at("node.name"@)->Text_0);
    }
}

/// An object is the node of its identifier.
pub proof fn law_node_is_the_identifier(object: JsonView, id: u32)
    ensures
        object.at("id"@) == JsonView::Number(Some(id as u64)) ==> object_node(object) == Some(id),
        !(object.at("id"@) is Number) ==> object_node(object) is None,
{
}

/// The first object decides, of those that are found by their name, and of those
/// that are Spotify's output: what is found in two lists of objects is what is
/// found in the first, or else what is found in the second.
pub proof fn law_first_object_decides(
    first: Seq<JsonView>,
    second: Seq<JsonView>,
    name: Seq<char>,
    node_id: u32,
)
    ensures
        spotify_node(first + second) == (if spotify_node(first) is Some {
            spotify_node(first)
        } else {
            spotify_node(second)
        }),
        node_called(first + second, name) == (if node_called(first, name) is Some {
            node_called(first, name)
        } else {
            node_called(second, name)
        }),
        target(first + second, node_id) == (if target(first, node_id) is Some {
            target(first, node_id)
        } else {
            target(second, node_id)
        }),
    decreases first.len(),
{
    if first.len() == 0 {
        assert(first + second =~= second);
    } else {
        assert((first + second).drop_first() =~= first.drop_first() + second);
        assert((first + second)[0] == first[0]);
        law_first_object_decides(first.drop_first(), second, name, node_id);
    }
}

/// What is found in one object: its identifier by its name, and where it has the
/// audio of a node go. An object says that only of the node it belongs to, and by
/// its target before the older property for it.
pub proof fn law_one_object(object: JsonView, name: Seq<char>, node_id: u32, goal: u32, id: u32)
    ensures
        ({
            let about = object.at("info"@).at("props"@);
            let one = seq![object];
            let own = about.at("node.id"@) == JsonView::Number(Some(node_id as u64));
            &&& object.at("id"@) == JsonView::Number(Some(id as u64)) ==> (node_called(one, name)
                == Some(id) <==> about.at("node.name"@) == JsonView::Text(name))
            &&& about.at("node.name"@) != JsonView::Text(name) ==> node_called(one, name) is None
            &&& own && about.at("target.node"@) == JsonView::Number(Some(goal as u64)) ==> target(
                one,
                node_id,
            ) == Some(goal)
            &&& own && !(about.at("target.node"@) is Number) && about.at("node.target"@)
                == JsonView::Number(Some(goal as u64)) ==> target(one, node_id) == Some(goal)
            &&& own && !(about.at("target.node"@) is Number) && !(about.at(
                "node.target"@,
            ) is Number) ==> target(one, node_id) is None
            &&& !own ==> target(one, node_id) is None
        }),
{
    let one = seq![object];
    assert(one.drop_first() =~= Seq::empty());
    assert(target(one.drop_first(), node_id) is None);
    assert(node_called(one.drop_first(), name) is None);
}

/// The outputs of a node come in the order of the objects, and an object is one
/// exactly if it belongs to the node, leads out of it and has an identifier.
pub proof fn law_outputs_of_a_node(
    first: Seq<JsonView>,
    second: Seq<JsonView>,
    object: JsonView,
    node_id: u32,
    id: u32,
)
    ensures
        output_ports(first + second, node_id) == output_ports(first, node_id) + output_ports(
            second,
            node_id,
        ),
        ({
            let about = object.at("info"@).at("props"@);
            let out = about.at("node.id"@) == JsonView::Number(Some(node_id as u64)) && about.at(
                "port.direction"@,
            ) == JsonView::Text("out"@);
            &&& out && object.at("id"@) == JsonView::Number(Some(id as u64)) ==> output_ports(
                seq![object],
                node_id,
            ) == seq![id]
            &&& !out || !(object.at("id"@) is Number) ==> output_ports(seq![object], node_id)
                == Seq::<u32>::empty()
        }),
    decreases second.len(),
{
    let one = seq![object];
    assert(one.drop_last() =~= Seq::empty());
    assert(output_ports(one.drop_last(), node_id) =~= Seq::empty());
    assert(Seq::<u32>::empty().push(id) =~= seq![id]);
    if second.len() == 0 {
        assert(first + second =~= first);
        assert(output_ports(first, node_id) + output_ports(second, node_id) =~= output_ports(
            first,
            node_id,
        ));
    } else {
        let whole = first + second;
        assert(whole.drop_last() =~= first + second.drop_last());
        assert(whole.last() == second.last());
        law_outputs_of_a_node(first, second.drop_last(), object, node_id, id);
        assert(output_ports(whole, node_id) =~= output_ports(first, node_id) + output_ports(
            second,
            node_id,
        ));
    }
}

/// The default sink is read off the first line that gives it: the word for an
/// identifier, the number, and a comma if more follows.
pub proof fn law_default_sink_is_read(pad: Seq<char>, id: u32, rest: Seq<char>)
    requires
        text::all_in(text::Charset::White, pad),
        rest.len() == 0 || (rest[0] == ',' && !text::white_space(rest.last())),
    ensures
        sink_in_line(pad + ("id "@ + text::decimal(id as nat) + rest)) == Some(id),
{
    reveal_strlit("id ");
    let digits = text::decimal(id as nat);
    let content = "id "@ + digits + rest;
    let none = Seq::<char>::empty();
    text::lemma_decimal_digits(id as nat);
    text::lemma_decimal_plain(id as nat, ',');
    text::law_decimal_reads_back(id as nat, u32::MAX as nat);
    assert(content[0] == 'i');
    if rest.len() == 0 {
        assert(content.last() == digits.last());
    } else {
        assert(content.last() == rest.last());
    }
    assert(pad + content =~= pad + content + none);
    text::law_trimming_keeps_the_middle(text::Charset::White, pad, content, none);
    assert("id "@.is_prefix_of(content)) by {
        assert(content.take(3) =~= "id "@);
    }
    let tail = content.skip(3);
    assert(tail =~= digits + rest);
    let comma = text::Charset::One(',');
    text::law_one_piece(comma, digits);
    if rest.len() == 0 {
        assert(tail =~= digits);
    } else {
        let more = rest.drop_first();
        assert(tail =~= digits + seq![','] + more);
        text::law_separator_cuts(comma, digits, ',', more);
    }
    assert(text::split(comma, tail)[0] == digits);
    assert(none + digits + none =~= digits);
    text::law_trimming_keeps_the_middle(text::Charset::White, none, digits, none);
}

/// The first line that gives a sink decides.
pub proof fn law_first_sink_decides(first: Seq<Seq<char>>, second: Seq<Seq<char>>, line: Seq<char>)
    ensures
        sink_in_lines(first + second) == (if sink_in_lines(first) is Some {
            sink_in_lines(first)
        } else {
            sink_in_lines(second)
        }),
        sink_in_lines(seq![line]) == sink_in_line(line),
    decreases first.len(),
{
    assert(seq![line].drop_first() =~= Seq::empty());
    assert(sink_in_lines(seq![line].drop_first()) is None);
    if first.len() == 0 {
        assert(first + second =~= second);
    } else {
        assert((first + second).drop_first() =~= first.drop_first() + second);
        assert((first + second)[0] == first[0]);
        law_first_sink_decides(first.drop_first(), second, line);
    }
}

/// A stream is sent to a sink by naming both, each by its own number, and let go
/// by naming the stream.
pub proof fn law_redirection_names_both(stream: u32, sink: u32)
    ensures
        target_args(stream, sink).len() == 4,
        target_args(stream, sink)[0] == text::decimal(stream as nat),
        target_args(stream, sink)[1] == "target.node"@,
        target_args(stream, sink)[2] == text::decimal(sink as nat),
        target_args(stream, sink)[3] == "Spa:Id"@,
        delete_args(stream).len() == 3,
        delete_args(stream)[0] == "-d"@,
        delete_args(stream)[1] == text::decimal(stream as nat),
        delete_args(stream)[2] == "target.node"@,
{
}

} // verus!
