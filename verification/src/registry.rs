//! The device registry codec: a line-oriented text form of a camera list,
//! one camera per line, `IP: <stream-url-or-empty> ONVIF: <control-url>`.
//! Encoding and parsing are inverse on well-formed cameras; the file I/O
//! around them lives in the embedding application.

use vstd::prelude::*;
use vstd::string::StringSliceAdditionalSpecFns;

use crate::camera::Camera;
use crate::device::Device;
use crate::device::DeviceTypes;
use crate::device::StreamUri;
use crate::error::OnvifError;
use crate::text::append_bytes;
use crate::text::bytes_eq;
use crate::text::contains_sub;
use crate::text::is_match_at;
use crate::text::lemma_find_is_first;
use crate::text::lemma_split_join;
use crate::text::no_byte;
use crate::text::spec_contains;
use crate::text::spec_join;
use crate::text::spec_split;
use crate::text::split_bytes;
use crate::text::sub_to_vec;

verus! {

pub const SPACE: u8 = 32u8;

pub const NEWLINE: u8 = 10u8;

/// The stream URL a camera is saved with: its negotiated RTSP URL, or
/// empty when none was negotiated.
pub open spec fn spec_saved_rtsp(c: Camera) -> Seq<u8> {
    match c.spec_rtsp() {
        Some(u) => u,
        None => Seq::empty(),
    }
}

/// One registry line: four space-separated fields.
pub open spec fn spec_camera_line(c: Camera) -> Seq<u8> {
    spec_join(
        seq!["IP:".spec_bytes(), spec_saved_rtsp(c), "ONVIF:".spec_bytes(), c.base.url_onvif@],
        SPACE,
    )
}

/// Lines, each ended by a newline.
pub open spec fn spec_encode_lines(lines: Seq<Seq<u8>>) -> Seq<u8>
    decreases lines.len(),
{
    if lines.len() == 0 {
        Seq::empty()
    } else {
        lines[0] + seq![NEWLINE] + spec_encode_lines(lines.subrange(1, lines.len() as int))
    }
}

/// The registry file for a camera list.
pub open spec fn spec_registry(cams: Seq<Camera>) -> Seq<u8> {
    spec_encode_lines(cams.map_values(|c: Camera| spec_camera_line(c)))
}

/// What one camera contributes to the registry, and what a parse gives
/// back: its control URL and its stream URL, if any.
pub open spec fn spec_cam_entry(c: Camera) -> (Seq<u8>, Option<Seq<u8>>) {
    (c.base.url_onvif@, c.spec_rtsp())
}

/// What one nonempty line parses to: its four fields must carry the two
/// markers and a nonempty control URL; an empty stream field means no
/// stream URL was saved.
pub open spec fn spec_line_entry(line: Seq<u8>) -> Option<(Seq<u8>, Option<Seq<u8>>)> {
    let fs = spec_split(line, SPACE);
    if fs.len() == 4 && fs[0] == "IP:".spec_bytes() && fs[2] == "ONVIF:".spec_bytes() && fs[3].len()
        > 0 {
        Some((fs[3], if fs[1].len() == 0 { None } else { Some(fs[1]) }))
    } else {
        None
    }
}

/// The entries of a chunk list: blank chunks are skipped, and one chunk
/// that is not a well-formed line fails the whole parse.
pub open spec fn spec_registry_entries(chunks: Seq<Seq<u8>>) -> Option<
    Seq<(Seq<u8>, Option<Seq<u8>>)>,
>
    decreases chunks.len(),
{
    if chunks.len() == 0 {
        Some(Seq::empty())
    } else if chunks[0].len() == 0 {
        spec_registry_entries(chunks.subrange(1, chunks.len() as int))
    } else {
        match spec_line_entry(chunks[0]) {
            Some(e) => match spec_registry_entries(chunks.subrange(1, chunks.len() as int)) {
                Some(rest) => Some(seq![e] + rest),
                None => None,
            },
            None => None,
        }
    }
}

/// What a registry file parses to: it must be nonempty, carry the `IP`
/// marker somewhere, and yield at least one entry.
pub open spec fn spec_parse_registry(contents: Seq<u8>) -> Option<Seq<(Seq<u8>, Option<Seq<u8>>)>> {
    if contents.len() == 0 || !spec_contains(contents, "IP".spec_bytes()) {
        None
    } else {
        match spec_registry_entries(spec_split(contents, NEWLINE)) {
            Some(es) => if es.len() == 0 {
                None
            } else {
                Some(es)
            },
            None => None,
        }
    }
}

/// Encode a camera list as registry file bytes.  An empty list is
/// refused, so a later load never mistakes the file for a stale empty
/// registry.
pub fn registry_encode(cameras: &Vec<Camera>) -> (r: Result<Vec<u8>, OnvifError>)
    ensures
        cameras@.len() == 0 <==> r is Err,
        r matches Err(e) ==> e is RegistryUnavailable,
        r matches Ok(v) ==> v@ == spec_registry(cameras@),
{
    if cameras.len() == 0 {
        return Err(OnvifError::RegistryUnavailable);
    }
    let ghost lines = cameras@.map_values(|c: Camera| spec_camera_line(c));
    let mut out: Vec<u8> = Vec::new();
    let n = cameras.len();
    let mut i: usize = 0;
    proof {
        assert(lines.subrange(0, 0) =~~= Seq::<Seq<u8>>::empty());
    }
    while i < n
        invariant
            i <= n,
            n == cameras@.len(),
            lines == cameras@.map_values(|c: Camera| spec_camera_line(c)),
            out@ == spec_encode_lines(lines.subrange(0, i as int)),
        decreases n - i,
    {
        let ghost pre = out@;
        let cam = &cameras[i];
        append_bytes(&mut out, "IP:".as_bytes());
        out.push(SPACE);
        match &cam.stream {
            Option::Some(s) => match &s.uri {
                Option::Some(u) => {
                    append_bytes(&mut out, u.as_slice());
                },
                Option::None => {},
            },
            Option::None => {},
        }
        out.push(SPACE);
        append_bytes(&mut out, "ONVIF:".as_bytes());
        out.push(SPACE);
        append_bytes(&mut out, cam.base.url_onvif.as_slice());
        out.push(NEWLINE);
        proof {
            lemma_join4(
                "IP:".spec_bytes(),
                spec_saved_rtsp(cameras@[i as int]),
                "ONVIF:".spec_bytes(),
                cameras@[i as int].base.url_onvif@,
                SPACE,
            );
            assert(out@ =~= pre + spec_camera_line(cameras@[i as int]) + seq![NEWLINE]);
            lemma_encode_snoc(lines.subrange(0, i as int), lines[i as int]);
            assert(lines.subrange(0, i + 1) =~~= lines.subrange(0, i as int).push(lines[i as int]));
            assert(out@ =~= spec_encode_lines(lines.subrange(0, i + 1)));
        }
        i += 1;
    }
    proof {
        assert(lines.subrange(0, n as int) =~~= lines);
    }
    Ok(out)
}

/// Parse one nonempty registry line into a bare camera: only the control
/// URL and the stream URL are restored.
fn parse_registry_line(line: &[u8]) -> (r: Option<Camera>)
    ensures
        match r {
            Option::Some(c) => spec_line_entry(line@) == Some(spec_cam_entry(c)),
            Option::None => spec_line_entry(line@) is None,
        },
{
    let fields = split_bytes(line, SPACE);
    proof {
        assert(fields.deep_view() == spec_split(line@, SPACE));
    }
    if fields.len() != 4 {
        return None;
    }
    proof {
        assert(fields.deep_view()[0] == fields@[0]@);
        assert(fields.deep_view()[1] == fields@[1]@);
        assert(fields.deep_view()[2] == fields@[2]@);
        assert(fields.deep_view()[3] == fields@[3]@);
    }
    if !bytes_eq(fields[0].as_slice(), "IP:".as_bytes()) {
        return None;
    }
    if !bytes_eq(fields[2].as_slice(), "ONVIF:".as_bytes()) {
        return None;
    }
    if fields[3].len() == 0 {
        return None;
    }
    let url = sub_to_vec(fields[3].as_slice(), 0, fields[3].len());
    proof {
        assert(url@ =~= fields@[3]@);
    }
    let device = Device { url_onvif: url, device_type: DeviceTypes::Unknown, scopes: Vec::new() };
    let mut cam = Camera::new(device);
    if fields[1].len() > 0 {
        let rtsp = sub_to_vec(fields[1].as_slice(), 0, fields[1].len());
        proof {
            assert(rtsp@ =~= fields@[1]@);
        }
        cam.stream = Some(StreamUri { uri: Some(rtsp), timeout: None, invalid_connect: None });
    }
    Some(cam)
}

/// Parse registry file bytes back into a camera list.  An empty file, a
/// file without the `IP` marker, a malformed line, or a file with no
/// entries at all is `RegistryUnavailable`.
pub fn registry_parse(contents: &[u8]) -> (r: Result<Vec<Camera>, OnvifError>)
    ensures
        r matches Ok(v) ==> (spec_parse_registry(contents@) matches Some(es) && v@.map_values(
            |c: Camera| spec_cam_entry(c),
        ) == es),
        r matches Err(e) ==> e is RegistryUnavailable && spec_parse_registry(contents@) is None,
{
    if contents.len() == 0 {
        return Err(OnvifError::RegistryUnavailable);
    }
    if !contains_sub(contents, "IP".as_bytes()) {
        return Err(OnvifError::RegistryUnavailable);
    }
    let chunks = split_bytes(contents, NEWLINE);
    let ghost gchunks = spec_split(contents@, NEWLINE);
    let mut cams: Vec<Camera> = Vec::new();
    let n = chunks.len();
    let mut k: usize = 0;
    proof {
        assert(gchunks.subrange(0, n as int) =~~= gchunks);
        assert(cams@.map_values(|c: Camera| spec_cam_entry(c)) =~~= Seq::<
            (Seq<u8>, Option<Seq<u8>>),
        >::empty());
    }
    while k < n
        invariant
            k <= n,
            n == chunks@.len(),
            gchunks == chunks.deep_view(),
            gchunks == spec_split(contents@, NEWLINE),
            spec_registry_entries(gchunks) == match spec_registry_entries(
                gchunks.subrange(k as int, n as int),
            ) {
                Some(rest) => Some(
                    cams@.map_values(|c: Camera| spec_cam_entry(c)) + rest,
                ),
                None => None::<Seq<(Seq<u8>, Option<Seq<u8>>)>>,
            },
        decreases n - k,
    {
        let ghost built = cams@.map_values(|c: Camera| spec_cam_entry(c));
        proof {
            assert(gchunks.subrange(k as int, n as int)[0] == gchunks[k as int]);
            assert(gchunks.subrange(k as int, n as int).subrange(
                1,
                (n - k) as int,
            ) =~~= gchunks.subrange(k + 1, n as int));
            assert(chunks.deep_view()[k as int] == chunks@[k as int]@);
        }
        if chunks[k].len() > 0 {
            match parse_registry_line(chunks[k].as_slice()) {
                Option::Some(cam) => {
                    let ghost entry = spec_cam_entry(cam);
                    cams.push(cam);
                    proof {
                        assert(cams@.map_values(|c: Camera| spec_cam_entry(c)) =~~= built.push(
                            entry,
                        ));
                        assert(built + (seq![entry] + spec_registry_entries(
                            gchunks.subrange(k + 1, n as int),
                        ).unwrap()) =~~= built.push(entry) + spec_registry_entries(
                            gchunks.subrange(k + 1, n as int),
                        ).unwrap());
                    }
                },
                Option::None => {
                    proof {
                        assert(spec_registry_entries(gchunks.subrange(k as int, n as int)) is None);
                        assert(spec_registry_entries(gchunks) is None);
                    }
                    return Err(OnvifError::RegistryUnavailable);
                },
            }
        }
        k += 1;
    }
    proof {
        assert(gchunks.subrange(n as int, n as int) =~~= Seq::<Seq<u8>>::empty());
        assert(spec_registry_entries(gchunks.subrange(n as int, n as int)) == Some(Seq::<
            (Seq<u8>, Option<Seq<u8>>),
        >::empty()));
        assert(cams@.map_values(|c: Camera| spec_cam_entry(c)) + Seq::<
            (Seq<u8>, Option<Seq<u8>>),
        >::empty() =~~= cams@.map_values(|c: Camera| spec_cam_entry(c)));
    }
    if cams.len() == 0 {
        return Err(OnvifError::RegistryUnavailable);
    }
    Ok(cams)
}

/// Joining four parts spelled out.
proof fn lemma_join4(a: Seq<u8>, b: Seq<u8>, c: Seq<u8>, d: Seq<u8>, sep: u8)
    ensures
        spec_join(seq![a, b, c, d], sep) == a + seq![sep] + b + seq![sep] + c + seq![sep] + d,
{
    let all = seq![a, b, c, d];
    assert(all.subrange(1, 4) =~~= seq![b, c, d]);
    assert(seq![b, c, d].subrange(1, 3) =~~= seq![c, d]);
    assert(seq![c, d].subrange(1, 2) =~~= seq![d]);
    assert(spec_join(seq![d], sep) == d);
    assert(spec_join(seq![c, d], sep) == c + seq![sep] + spec_join(seq![d], sep));
    assert(spec_join(seq![b, c, d], sep) == b + seq![sep] + spec_join(seq![c, d], sep));
    assert(spec_join(all, sep) == a + seq![sep] + spec_join(seq![b, c, d], sep));
    assert(spec_join(all, sep) =~= a + seq![sep] + b + seq![sep] + c + seq![sep] + d);
}

/// Appending one line to an encoded file.
proof fn lemma_encode_snoc(lines: Seq<Seq<u8>>, l: Seq<u8>)
    ensures
        spec_encode_lines(lines.push(l)) == spec_encode_lines(lines) + l + seq![NEWLINE],
    decreases lines.len(),
{
    if lines.len() == 0 {
        let tail = lines.push(l).subrange(1, 1);
        assert(tail =~~= Seq::<Seq<u8>>::empty());
        assert(spec_encode_lines(tail) == Seq::<u8>::empty());
        assert(spec_encode_lines(lines.push(l)) =~= spec_encode_lines(lines) + l + seq![NEWLINE]);
    } else {
        assert(lines.push(l).subrange(1, lines.len() as int + 1) =~~= lines.subrange(
            1,
            lines.len() as int,
        ).push(l));
        lemma_encode_snoc(lines.subrange(1, lines.len() as int), l);
        assert(spec_encode_lines(lines.push(l)) =~= spec_encode_lines(lines) + l + seq![NEWLINE]);
    }
}

/// A join carries no byte that neither the parts nor the separator carry.
proof fn lemma_join_no_byte(parts: Seq<Seq<u8>>, sep: u8, b: u8)
    requires
        sep != b,
        forall|i: int| 0 <= i < parts.len() ==> no_byte(#[trigger] parts[i], b),
    ensures
        no_byte(spec_join(parts, sep), b),
    decreases parts.len(),
{
    if parts.len() >= 2 {
        let head = parts[0];
        let rest = parts.subrange(1, parts.len() as int);
        lemma_join_no_byte(rest, sep, b);
        let tail = spec_join(rest, sep);
        let s = head + seq![sep] + tail;
        assert forall|j: int| 0 <= j < s.len() implies s[j] != b by {
            if j < head.len() {
                assert(s[j] == head[j]);
            } else if j == head.len() {
                assert(s[j] == sep);
            } else {
                assert(s[j] == tail[j - head.len() - 1]);
            }
        }
    }
}

/// Splitting an encoded file on newlines gives back the lines, plus one
/// final empty chunk for the trailing newline.
proof fn lemma_split_encode(lines: Seq<Seq<u8>>)
    requires
        forall|i: int| 0 <= i < lines.len() ==> no_byte(#[trigger] lines[i], NEWLINE),
    ensures
        spec_split(spec_encode_lines(lines), NEWLINE) == lines + seq![Seq::<u8>::empty()],
    decreases lines.len(),
{
    if lines.len() == 0 {
        let s = spec_encode_lines(lines);
        assert(s.len() == 0);
        assert(spec_split(s, NEWLINE) == seq![s]);
        assert(seq![s] =~~= lines + seq![Seq::<u8>::empty()]);
    } else {
        let head = lines[0];
        let rest = lines.subrange(1, lines.len() as int);
        let tail = spec_encode_lines(rest);
        let s = head + seq![NEWLINE] + tail;
        assert(spec_encode_lines(lines) == s);
        assert forall|j: int| 0 <= j < head.len() implies s[j] != NEWLINE by {
            assert(s[j] == head[j]);
        }
        assert(s[head.len() as int] == NEWLINE);
        lemma_find_is_first(s, 0, NEWLINE, head.len() as int);
        assert(s.subrange(0, head.len() as int) =~= head);
        assert(s.subrange(head.len() as int + 1, s.len() as int) =~= tail);
        lemma_split_encode(rest);
        assert(spec_split(s, NEWLINE) == seq![head] + spec_split(tail, NEWLINE));
        assert(seq![head] + (rest + seq![Seq::<u8>::empty()]) =~~= lines + seq![
            Seq::<u8>::empty(),
        ]);
    }
}

/// The concrete bytes of the line markers.
proof fn lemma_marker_bytes()
    ensures
        "IP:".spec_bytes() =~= seq![73u8, 80u8, 58u8],
        "ONVIF:".spec_bytes() =~= seq![79u8, 78u8, 86u8, 73u8, 70u8, 58u8],
        "IP".spec_bytes() =~= seq![73u8, 80u8],
{
    reveal_strlit("IP:");
    reveal_strlit("ONVIF:");
    reveal_strlit("IP");
    vstd::string::is_ascii_spec_bytes("IP:");
    vstd::string::is_ascii_spec_bytes("ONVIF:");
    vstd::string::is_ascii_spec_bytes("IP");
}

/// A camera the registry can round-trip: its control URL is nonempty and
/// free of spaces and newlines, and so is its stream URL if it has one.
pub open spec fn registry_safe(c: Camera) -> bool {
    &&& c.base.url_onvif@.len() > 0
    &&& no_byte(c.base.url_onvif@, SPACE)
    &&& no_byte(c.base.url_onvif@, NEWLINE)
    &&& match c.spec_rtsp() {
        Some(u) => u.len() > 0 && no_byte(u, SPACE) && no_byte(u, NEWLINE),
        None => true,
    }
}

/// One saved line parses back to the camera's entry.
proof fn lemma_line_round_trip(c: Camera)
    requires
        registry_safe(c),
    ensures
        spec_line_entry(spec_camera_line(c)) == Some(spec_cam_entry(c)),
        spec_camera_line(c).len() > 0,
        no_byte(spec_camera_line(c), NEWLINE),
{
    lemma_marker_bytes();
    let fields = seq![
        "IP:".spec_bytes(),
        spec_saved_rtsp(c),
        "ONVIF:".spec_bytes(),
        c.base.url_onvif@,
    ];
    assert forall|i: int| 0 <= i < fields.len() implies no_byte(#[trigger] fields[i], SPACE) by {
        assert(no_byte("IP:".spec_bytes(), SPACE));
        assert(no_byte("ONVIF:".spec_bytes(), SPACE));
    }
    lemma_split_join(fields, SPACE);
    assert forall|i: int| 0 <= i < fields.len() implies no_byte(#[trigger] fields[i], NEWLINE) by {
        assert(no_byte("IP:".spec_bytes(), NEWLINE));
        assert(no_byte("ONVIF:".spec_bytes(), NEWLINE));
    }
    lemma_join_no_byte(fields, SPACE, NEWLINE);
    lemma_join4(fields[0], fields[1], fields[2], fields[3], SPACE);
    let line = spec_camera_line(c);
    assert(line.len() > 0);
    let fs = spec_split(line, SPACE);
    assert(fs == fields);
    assert(fs[0] == "IP:".spec_bytes());
    assert(fs[2] == "ONVIF:".spec_bytes());
    assert(fs[3].len() > 0);
    match c.spec_rtsp() {
        Some(u) => {
            assert(fs[1] == u);
            assert(fs[1].len() > 0);
        },
        None => {
            assert(fs[1].len() == 0);
        },
    }
}

/// The chunk list of a saved registry parses back to the camera entries.
proof fn lemma_entries_of_lines(cams: Seq<Camera>)
    requires
        forall|i: int| 0 <= i < cams.len() ==> registry_safe(#[trigger] cams[i]),
    ensures
        spec_registry_entries(
            cams.map_values(|c: Camera| spec_camera_line(c)) + seq![Seq::<u8>::empty()],
        ) == Some(cams.map_values(|c: Camera| spec_cam_entry(c))),
    decreases cams.len(),
{
    let lines = cams.map_values(|c: Camera| spec_camera_line(c));
    let chunks = lines + seq![Seq::<u8>::empty()];
    if cams.len() == 0 {
        assert(chunks.len() == 1);
        assert(chunks[0].len() == 0);
        assert(chunks.subrange(1, 1) =~~= Seq::<Seq<u8>>::empty());
        assert(spec_registry_entries(chunks.subrange(1, 1)) == Some(Seq::<
            (Seq<u8>, Option<Seq<u8>>),
        >::empty()));
        assert(spec_registry_entries(chunks) == Some(Seq::<(Seq<u8>, Option<Seq<u8>>)>::empty()));
        assert(cams.map_values(|c: Camera| spec_cam_entry(c)) =~~= Seq::<
            (Seq<u8>, Option<Seq<u8>>),
        >::empty());
    } else {
        let head = cams[0];
        let rest = cams.subrange(1, cams.len() as int);
        lemma_line_round_trip(head);
        assert(chunks[0] == spec_camera_line(head));
        assert(chunks[0].len() > 0);
        assert(chunks.subrange(1, chunks.len() as int) =~~= rest.map_values(
            |c: Camera| spec_camera_line(c),
        ) + seq![Seq::<u8>::empty()]);
        assert(forall|i: int| 0 <= i < rest.len() ==> registry_safe(#[trigger] rest[i]));
        lemma_entries_of_lines(rest);
        assert(seq![spec_cam_entry(head)] + rest.map_values(|c: Camera| spec_cam_entry(c))
            =~~= cams.map_values(|c: Camera| spec_cam_entry(c)));
    }
}

/// Saving a camera list and loading it back reconstructs the same list:
/// for each camera, the same control URL, and the same stream URL or the
/// same absence of one, in the same order.
pub proof fn lemma_registry_round_trip(cams: Seq<Camera>)
    requires
        cams.len() >= 1,
        forall|i: int| 0 <= i < cams.len() ==> registry_safe(#[trigger] cams[i]),
    ensures
        spec_parse_registry(spec_registry(cams)) == Some(
            cams.map_values(|c: Camera| spec_cam_entry(c)),
        ),
{
    let lines = cams.map_values(|c: Camera| spec_camera_line(c));
    let contents = spec_registry(cams);
    assert forall|i: int| 0 <= i < lines.len() implies no_byte(#[trigger] lines[i], NEWLINE) by {
        lemma_line_round_trip(cams[i]);
    }
    lemma_split_encode(lines);
    lemma_entries_of_lines(cams);
    // the file is nonempty and holds the IP marker at its very start
    lemma_line_round_trip(cams[0]);
    lemma_marker_bytes();
    let line0 = lines[0];
    assert(contents == line0 + seq![NEWLINE] + spec_encode_lines(
        lines.subrange(1, lines.len() as int),
    ));
    lemma_join4(
        "IP:".spec_bytes(),
        spec_saved_rtsp(cams[0]),
        "ONVIF:".spec_bytes(),
        cams[0].base.url_onvif@,
        SPACE,
    );
    assert(contents.len() > 0);
    assert(contents[0] == 73u8 && contents[1] == 80u8) by {
        assert(line0[0] == "IP:".spec_bytes()[0]);
        assert(line0[1] == "IP:".spec_bytes()[1]);
        assert(contents[0] == line0[0]);
        assert(contents[1] == line0[1]);
    }
    assert(is_match_at(contents, "IP".spec_bytes(), 0)) by {
        assert(contents.subrange(0, 2) =~= "IP".spec_bytes());
    }
    assert(spec_contains(contents, "IP".spec_bytes()));
    let es = cams.map_values(|c: Camera| spec_cam_entry(c));
    assert(es.len() == cams.len());
}

} // verus!
