//! The capability builder stages: each takes the raw bytes of one SOAP
//! response and produces the typed sub-record for that stage.  A field the
//! response does not carry is left absent; no stage fails outright, it
//! only degrades.

use vstd::prelude::*;
use vstd::string::StringSliceAdditionalSpecFns;

use crate::client::url_parse_of;
use crate::client::parse_url_bytes;
use crate::device::Capabilities;
use crate::device::DeviceInfo;
use crate::device::Profiles;
use crate::device::StreamUri;
use crate::device::Services;
use crate::device::ServiceCapabilities;
use crate::text::spec_contains;
use crate::text::contains_sub;
use crate::text::all_digits;
use crate::text::spec_digits_value;
use crate::text::parse_u32;
use crate::text::spec_find;
use crate::text::find_byte;
use crate::text::sub_to_vec;
use crate::xml::parse_soap;
use crate::xml::spec_parse_soap;
use crate::xml::EQUALS;

verus! {

/// The first text of `name` under `parent` in a response, if present.
pub open spec fn spec_scoped_text(resp: Seq<u8>, name: Seq<u8>, parent: Option<Seq<u8>>) -> Option<
    Seq<u8>,
> {
    let xs = spec_parse_soap(resp, name, parent, true, false);
    if xs.len() == 0 {
        None
    } else {
        Some(xs[0])
    }
}

/// The first text of `name` anywhere in a response, if present.
pub open spec fn spec_first_text(resp: Seq<u8>, name: Seq<u8>) -> Option<Seq<u8>> {
    spec_scoped_text(resp, name, None)
}

/// The first text of `name` under `parent`, read as a URL the URL crate
/// accepts, normalized; absent when missing or unusable.
pub open spec fn spec_xaddr_url(resp: Seq<u8>, parent: Seq<u8>) -> Option<Seq<u8>> {
    match spec_scoped_text(resp, "XAddr".spec_bytes(), Some(parent)) {
        Some(t) => url_parse_of(t),
        None => None,
    }
}

/// The first text of `name`, read as a decimal number that fits a `u32`.
pub open spec fn spec_first_num(resp: Seq<u8>, name: Seq<u8>) -> Option<u32> {
    match spec_first_text(resp, name) {
        Some(t) => if all_digits(t) && spec_digits_value(t) <= u32::MAX {
            Some(spec_digits_value(t) as u32)
        } else {
            None
        },
        None => None,
    }
}

/// Extract the first text of `name` under `parent`.
fn scoped_text(resp: &[u8], name: &[u8], parent: Option<&[u8]>) -> (r: Option<Vec<u8>>)
    ensures
        r.deep_view() == spec_scoped_text(resp@, name@, crate::xml::spec_parent_view(parent)),
{
    let mut found = parse_soap(resp, name, parent, true, false);
    if found.len() == 0 {
        None
    } else {
        Some(found.remove(0))
    }
}

/// Extract the first text of `name` under `parent` as a normalized URL.
fn xaddr_url(resp: &[u8], parent: &[u8]) -> (r: Option<Vec<u8>>)
    ensures
        r.deep_view() == spec_xaddr_url(resp@, parent@),
{
    match scoped_text(resp, "XAddr".as_bytes(), Some(parent)) {
        Option::Some(t) => {
            proof {
                assert(t.deep_view() =~= t@);
            }
            let r = parse_url_bytes(t.as_slice());
            proof {
                match &r {
                    Option::Some(v) => {
                        assert(r.deep_view() == Some(v@));
                    },
                    Option::None => {},
                }
            }
            r
        },
        Option::None => None,
    }
}

/// Extract the first text of `name` as a number.
fn first_num(resp: &[u8], name: &[u8]) -> (r: Option<u32>)
    ensures
        r == spec_first_num(resp@, name@),
{
    match scoped_text(resp, name, None) {
        Option::Some(t) => {
            proof {
                assert(t.deep_view() =~= t@);
            }
            parse_u32(t.as_slice())
        },
        Option::None => None,
    }
}

/// What the capability stage yields from a response.
pub open spec fn caps_from(resp: Seq<u8>, r: Capabilities) -> bool {
    &&& r.url_media.deep_view() == spec_xaddr_url(resp, "Media".spec_bytes())
    &&& r.url_events.deep_view() == spec_xaddr_url(resp, "Events".spec_bytes())
    &&& r.url_analytics.deep_view() == spec_xaddr_url(resp, "Analytics".spec_bytes())
    &&& r.url_ptz.deep_view() == spec_xaddr_url(resp, "PTZ".spec_bytes())
    &&& r.url_imaging.deep_view() == spec_xaddr_url(resp, "Imaging".spec_bytes())
}

/// Build the capability record from a GetCapabilities response: one
/// service endpoint URL per category, each scoped by its category tag.
pub fn set_capabilities(response: &[u8]) -> (r: Capabilities)
    ensures
        caps_from(response@, r),
{
    Capabilities {
        url_media: xaddr_url(response, "Media".as_bytes()),
        url_events: xaddr_url(response, "Events".as_bytes()),
        url_analytics: xaddr_url(response, "Analytics".as_bytes()),
        url_ptz: xaddr_url(response, "PTZ".as_bytes()),
        url_imaging: xaddr_url(response, "Imaging".as_bytes()),
    }
}

/// What the identity stage yields from a response.
pub open spec fn device_info_from(resp: Seq<u8>, r: DeviceInfo) -> bool {
    &&& r.firmware_version.deep_view() == spec_first_text(resp, "FirmwareVersion".spec_bytes())
    &&& r.serial_num.deep_view() == spec_first_text(resp, "SerialNumber".spec_bytes())
    &&& r.hardware_id.deep_view() == spec_first_text(resp, "HardwareId".spec_bytes())
    &&& r.model.deep_view() == spec_first_text(resp, "Model".spec_bytes())
    &&& r.manufacturer.deep_view() == spec_first_text(resp, "Manufacturer".spec_bytes())
}

/// Build the identity record from a GetDeviceInformation response: five
/// flat fields, unscoped.
pub fn set_device_info(response: &[u8]) -> (r: DeviceInfo)
    ensures
        device_info_from(response@, r),
{
    DeviceInfo {
        firmware_version: scoped_text(response, "FirmwareVersion".as_bytes(), None),
        serial_num: scoped_text(response, "SerialNumber".as_bytes(), None),
        hardware_id: scoped_text(response, "HardwareId".as_bytes(), None),
        model: scoped_text(response, "Model".as_bytes(), None),
        manufacturer: scoped_text(response, "Manufacturer".as_bytes(), None),
    }
}

/// What the profile stage yields from a response.
pub open spec fn profiles_from(resp: Seq<u8>, r: Profiles) -> bool {
    &&& r.name is None
    &&& r.video_width == spec_first_num(resp, "Width".spec_bytes())
    &&& r.video_height == spec_first_num(resp, "Height".spec_bytes())
    &&& r.video_codec.deep_view() == spec_scoped_text(
        resp,
        "Encoding".spec_bytes(),
        Some("VideoEncoderConfiguration".spec_bytes()),
    )
    &&& r.audio_codec.deep_view() == spec_scoped_text(
        resp,
        "Encoding".spec_bytes(),
        Some("AudioEncoderConfiguration".spec_bytes()),
    )
    &&& r.h264_profile.deep_view() == spec_first_text(resp, "H264Profile".spec_bytes())
}

/// Build the profile record from a GetProfiles response.  Width and
/// height are independent: one may be present without the other.
pub fn set_profiles(response: &[u8]) -> (r: Profiles)
    ensures
        profiles_from(response@, r),
{
    Profiles {
        name: None,
        video_width: first_num(response, "Width".as_bytes()),
        video_height: first_num(response, "Height".as_bytes()),
        video_codec: scoped_text(
            response,
            "Encoding".as_bytes(),
            Some("VideoEncoderConfiguration".as_bytes()),
        ),
        audio_codec: scoped_text(
            response,
            "Encoding".as_bytes(),
            Some("AudioEncoderConfiguration".as_bytes()),
        ),
        h264_profile: scoped_text(response, "H264Profile".as_bytes(), None),
    }
}

/// What the stream stage yields from a response.
pub open spec fn stream_uri_from(resp: Seq<u8>, r: StreamUri) -> bool {
    &&& r.uri.deep_view() == spec_first_text(resp, "Uri".spec_bytes())
    &&& r.timeout.deep_view() == spec_first_text(resp, "Timeout".spec_bytes())
    &&& r.invalid_connect.deep_view() == spec_first_text(resp, "InvalidAfterConnect".spec_bytes())
}

/// Build the stream record from a GetStreamUri response.
pub fn set_stream_uri(response: &[u8]) -> (r: StreamUri)
    ensures
        stream_uri_from(response@, r),
{
    StreamUri {
        uri: scoped_text(response, "Uri".as_bytes(), None),
        timeout: scoped_text(response, "Timeout".as_bytes(), None),
        invalid_connect: scoped_text(response, "InvalidAfterConnect".as_bytes(), None),
    }
}

/// The category an XAddr string falls in, by the first matching keyword.
/// A device-service address is the endpoint already in hand and is
/// skipped; an address no keyword matches is ignored.
#[derive(Clone, Copy, Debug, PartialEq, Eq, Structural)]
pub enum ServiceClass {
    DeviceSelf,
    Analytics,
    Event,
    Io,
    Imaging,
    Media,
    Media2,
    Ptz,
    Unknown,
}

/// The keyword classification of one XAddr string.
pub open spec fn spec_classify(s: Seq<u8>) -> ServiceClass {
    if spec_contains(s, "device_service".spec_bytes()) {
        ServiceClass::DeviceSelf
    } else if spec_contains(s, "analytics".spec_bytes()) {
        ServiceClass::Analytics
    } else if spec_contains(s, "event".spec_bytes()) {
        ServiceClass::Event
    } else if spec_contains(s, "deviceIO".spec_bytes()) {
        ServiceClass::Io
    } else if spec_contains(s, "imaging".spec_bytes()) {
        ServiceClass::Imaging
    } else if spec_contains(s, "media_service".spec_bytes()) {
        ServiceClass::Media
    } else if spec_contains(s, "media2".spec_bytes()) {
        ServiceClass::Media2
    } else if spec_contains(s, "ptz".spec_bytes()) {
        ServiceClass::Ptz
    } else {
        ServiceClass::Unknown
    }
}

/// Classify one XAddr string by keyword.
pub fn classify_service(s: &[u8]) -> (r: ServiceClass)
    ensures
        r == spec_classify(s@),
{
    if contains_sub(s, "device_service".as_bytes()) {
        ServiceClass::DeviceSelf
    } else if contains_sub(s, "analytics".as_bytes()) {
        ServiceClass::Analytics
    } else if contains_sub(s, "event".as_bytes()) {
        ServiceClass::Event
    } else if contains_sub(s, "deviceIO".as_bytes()) {
        ServiceClass::Io
    } else if contains_sub(s, "imaging".as_bytes()) {
        ServiceClass::Imaging
    } else if contains_sub(s, "media_service".as_bytes()) {
        ServiceClass::Media
    } else if contains_sub(s, "media2".as_bytes()) {
        ServiceClass::Media2
    } else if contains_sub(s, "ptz".as_bytes()) {
        ServiceClass::Ptz
    } else {
        ServiceClass::Unknown
    }
}

/// The last XAddr in the list falling in class `k`, if any: a later
/// address of the same class replaces an earlier one.
pub open spec fn spec_last_service(xs: Seq<Seq<u8>>, k: ServiceClass) -> Option<Seq<u8>>
    decreases xs.len(),
{
    if xs.len() == 0 {
        None
    } else if spec_classify(xs.last()) == k {
        Some(xs.last())
    } else {
        spec_last_service(xs.drop_last(), k)
    }
}

/// What the services stage yields from a response.
pub open spec fn services_from(resp: Seq<u8>, r: Services) -> bool {
    let xs = spec_parse_soap(resp, "XAddr".spec_bytes(), None, false, false);
    &&& r.analytics.deep_view() == spec_last_service(xs, ServiceClass::Analytics)
    &&& r.event.deep_view() == spec_last_service(xs, ServiceClass::Event)
    &&& r.io.deep_view() == spec_last_service(xs, ServiceClass::Io)
    &&& r.imaging.deep_view() == spec_last_service(xs, ServiceClass::Imaging)
    &&& r.media.deep_view() == spec_last_service(xs, ServiceClass::Media)
    &&& r.media2.deep_view() == spec_last_service(xs, ServiceClass::Media2)
    &&& r.ptz.deep_view() == spec_last_service(xs, ServiceClass::Ptz)
}

/// Build the services record from a GetServices response: every XAddr in
/// the response is classified by keyword, later matches replacing earlier
/// ones; device-service self-references and unknown addresses are skipped.
pub fn set_services(response: &[u8]) -> (r: Services)
    ensures
        services_from(response@, r),
{
    let ghost gxs = spec_parse_soap(response@, "XAddr".spec_bytes(), None, false, false);
    let list = parse_soap(response, "XAddr".as_bytes(), None, false, false);
    let mut r = Services::default();
    let n = list.len();
    let mut i: usize = 0;
    proof {
        assert(list.deep_view().subrange(0, 0) =~~= Seq::<Seq<u8>>::empty());
    }
    while i < n
        invariant
            i <= n,
            n == list@.len(),
            gxs == list.deep_view(),
            r.analytics.deep_view() == spec_last_service(
                gxs.subrange(0, i as int),
                ServiceClass::Analytics,
            ),
            r.event.deep_view() == spec_last_service(
                gxs.subrange(0, i as int),
                ServiceClass::Event,
            ),
            r.io.deep_view() == spec_last_service(gxs.subrange(0, i as int), ServiceClass::Io),
            r.imaging.deep_view() == spec_last_service(
                gxs.subrange(0, i as int),
                ServiceClass::Imaging,
            ),
            r.media.deep_view() == spec_last_service(
                gxs.subrange(0, i as int),
                ServiceClass::Media,
            ),
            r.media2.deep_view() == spec_last_service(
                gxs.subrange(0, i as int),
                ServiceClass::Media2,
            ),
            r.ptz.deep_view() == spec_last_service(gxs.subrange(0, i as int), ServiceClass::Ptz),
        decreases n - i,
    {
        let entry = &list[i];
        let class = classify_service(entry.as_slice());
        proof {
            assert(list.deep_view()[i as int] == list@[i as int]@);
            assert(gxs.subrange(0, i + 1).drop_last() =~~= gxs.subrange(0, i as int));
            assert(gxs.subrange(0, i + 1).last() == gxs[i as int]);
        }
        let copied = sub_to_vec(entry.as_slice(), 0, entry.len());
        proof {
            assert(copied@ =~= list@[i as int]@);
        }
        match class {
            ServiceClass::DeviceSelf => {},
            ServiceClass::Analytics => {
                r.analytics = Some(copied);
            },
            ServiceClass::Event => {
                r.event = Some(copied);
            },
            ServiceClass::Io => {
                r.io = Some(copied);
            },
            ServiceClass::Imaging => {
                r.imaging = Some(copied);
            },
            ServiceClass::Media => {
                r.media = Some(copied);
            },
            ServiceClass::Media2 => {
                r.media2 = Some(copied);
            },
            ServiceClass::Ptz => {
                r.ptz = Some(copied);
            },
            ServiceClass::Unknown => {},
        }
        i += 1;
    }
    proof {
        assert(gxs.subrange(0, n as int) =~~= gxs);
    }
    r
}

/// The `key=value` pairs of the `Capabilities` element's attributes: each
/// rendered pair is cut at its first `=`; one with no `=` keeps the whole
/// text as its key and an empty value.
pub open spec fn spec_split_pair(e: Seq<u8>) -> (Seq<u8>, Seq<u8>) {
    let eq = spec_find(e, 0, EQUALS);
    if eq >= e.len() {
        (e, Seq::empty())
    } else {
        (e.subrange(0, eq), e.subrange(eq + 1, e.len() as int))
    }
}

/// The capability pairs a GetServiceCapabilities response carries.
pub open spec fn spec_capability_pairs(resp: Seq<u8>) -> Seq<(Seq<u8>, Seq<u8>)> {
    spec_parse_soap(resp, "Capabilities".spec_bytes(), None, true, true).map_values(
        |e: Seq<u8>| spec_split_pair(e),
    )
}

/// A chain of `prop_applied` steps from `init` to `fin`, one per pair.
pub open spec fn caps_applied<T: ServiceCapabilities>(
    init: T,
    fin: T,
    pairs: Seq<(Seq<u8>, Seq<u8>)>,
) -> bool
    decreases pairs.len(),
{
    if pairs.len() == 0 {
        fin == init
    } else {
        exists|mid: T|
            #[trigger] mid.prop_applied(init, pairs[0].0, pairs[0].1) && caps_applied(
                mid,
                fin,
                pairs.subrange(1, pairs.len() as int),
            )
    }
}

/// Feed every capability pair of a GetServiceCapabilities response into a
/// record, starting from `init`; unknown keys leave it unchanged.
pub fn set_service_capabilities<T: ServiceCapabilities>(init: T, response: &[u8]) -> (r: T)
    ensures
        caps_applied(init, r, spec_capability_pairs(response@)),
{
    let ghost pairs = spec_capability_pairs(response@);
    let entries = parse_soap(response, "Capabilities".as_bytes(), None, true, true);
    let mut record = init;
    let ghost ginit = record;
    let n = entries.len();
    let mut i: usize = 0;
    proof {
        assert(pairs.len() == n);
        lemma_caps_applied_refl(record, pairs.subrange(0, 0));
    }
    while i < n
        invariant
            i <= n,
            n == entries@.len(),
            pairs == spec_capability_pairs(response@),
            pairs.len() == n,
            pairs == entries.deep_view().map_values(|e: Seq<u8>| spec_split_pair(e)),
            caps_applied(ginit, record, pairs.subrange(0, i as int)),
        decreases n - i,
    {
        let entry = &entries[i];
        let elen = entry.len();
        let eq = find_byte(entry.as_slice(), 0, EQUALS);
        let ghost prior = record;
        if eq >= elen {
            let empty: Vec<u8> = Vec::new();
            record.set_prop_with_pair((entry.as_slice(), empty.as_slice()));
        } else {
            let key = sub_to_vec(entry.as_slice(), 0, eq);
            let value = sub_to_vec(entry.as_slice(), eq + 1, elen);
            record.set_prop_with_pair((key.as_slice(), value.as_slice()));
        }
        proof {
            assert(entries.deep_view()[i as int] == entries@[i as int]@);
            assert(pairs[i as int] == spec_split_pair(entries@[i as int]@));
            if spec_find(entries@[i as int]@, 0, EQUALS) >= entries@[i as int]@.len() {
                assert(record.prop_applied(prior, pairs[i as int].0, pairs[i as int].1));
            } else {
                assert(record.prop_applied(prior, pairs[i as int].0, pairs[i as int].1));
            }
            lemma_caps_applied_snoc(ginit, prior, record, pairs, i as int);
        }
        i += 1;
    }
    proof {
        assert(pairs.subrange(0, n as int) =~~= pairs);
    }
    record
}

/// The empty chain holds between a record and itself.
proof fn lemma_caps_applied_refl<T: ServiceCapabilities>(r: T, pairs: Seq<(Seq<u8>, Seq<u8>)>)
    requires
        pairs.len() == 0,
    ensures
        caps_applied(r, r, pairs),
{
}

/// Extending a chain by one applied pair.
proof fn lemma_caps_applied_snoc<T: ServiceCapabilities>(
    init: T,
    prior: T,
    fin: T,
    pairs: Seq<(Seq<u8>, Seq<u8>)>,
    i: int,
)
    requires
        0 <= i < pairs.len(),
        caps_applied(init, prior, pairs.subrange(0, i)),
        fin.prop_applied(prior, pairs[i].0, pairs[i].1),
    ensures
        caps_applied(init, fin, pairs.subrange(0, i + 1)),
    decreases i,
{
    let pre = pairs.subrange(0, i);
    let ext = pairs.subrange(0, i + 1);
    if i == 0 {
        assert(ext.subrange(1, ext.len() as int) =~~= pairs.subrange(1, 1));
        assert(pairs.subrange(1, 1).len() == 0);
        assert(prior == init);
        assert(ext[0] == pairs[0]);
        assert(caps_applied(fin, fin, ext.subrange(1, ext.len() as int)));
        assert(fin.prop_applied(init, ext[0].0, ext[0].1));
    } else {
        let mid = choose|mid: T|
            #[trigger] mid.prop_applied(init, pre[0].0, pre[0].1) && caps_applied(
                mid,
                prior,
                pre.subrange(1, pre.len() as int),
            );
        assert(pre.subrange(1, pre.len() as int) =~~= pairs.subrange(1, pairs.len() as int).subrange(
            0,
            i - 1,
        ));
        assert(pairs.subrange(1, pairs.len() as int)[i - 1] == pairs[i]);
        lemma_caps_applied_snoc(mid, prior, fin, pairs.subrange(1, pairs.len() as int), i - 1);
        assert(ext[0] == pairs[0]);
        assert(ext.subrange(1, ext.len() as int) =~~= pairs.subrange(1, pairs.len() as int).subrange(
            0,
            i,
        ));
        assert(mid.prop_applied(init, ext[0].0, ext[0].1));
        assert(caps_applied(mid, fin, ext.subrange(1, ext.len() as int)));
    }
}

} // verus!
