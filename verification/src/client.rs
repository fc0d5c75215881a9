//! The client side of the protocol: the SOAP request catalogue, the
//! transport retry bookkeeping, and the WS-Discovery engine.
//!
//! Sockets and HTTP live outside this crate.  The discovery engine here is
//! a state machine: the embedding application broadcasts the probe bytes
//! that `probe_message` builds, hands every UDP reply to
//! `DiscoverySession::handle_reply`, and closes with `finish`.  Replies are
//! deduplicated by sender address; a reply without a usable `XAddrs` URL is
//! skipped.

use vstd::prelude::*;
use vstd::string::StringSliceAdditionalSpecFns;

use crate::device::Device;
use crate::device::DeviceTypes;
use crate::device::parse_device_type;
use crate::device::spec_device_type;
use crate::error::OnvifError;
use crate::text::append_bytes;
use crate::text::split_bytes;
use crate::text::spec_split;
use crate::text::sub_to_vec;
use crate::text::bytes_eq;
use crate::xml::parse_soap;
use crate::xml::spec_parse_soap;

verus! {

/// The multicast group and port WS-Discovery probes go to.
pub const DISCOVER_URI: &'static str = "239.255.255.250:3702";

/// The wildcard local endpoint replies are received on.
pub const CLIENT_LISTEN_IP: &'static str = "0.0.0.0:0";

/// The ONVIF requests this client can send.
#[derive(Clone, Copy, Debug, PartialEq, Eq, Structural)]
pub enum Messages {
    Discovery,
    Capabilities,
    DeviceInfo,
    Profiles,
    GetStreamURI,
    GetServices,
    GetServiceCapabilities,
    GetEventProperties,
    CreatePullPointSubscriptionRequest,
    PullMessages,
}

/// The envelope opening shared by every device request.
pub open spec fn spec_env_prefix() -> Seq<u8> {
    "<Envelope xmlns=\"http://www.w3.org/2003/05/soap-envelope\" xmlns:tds=\"http://www.onvif.org/ver10/device/wsdl\"><Body>".spec_bytes()
}

/// The envelope closing shared by every device request.
pub open spec fn spec_env_suffix() -> Seq<u8> {
    "</Body></Envelope>".spec_bytes()
}

/// The discovery probe up to the message identifier.
pub open spec fn spec_probe_prefix() -> Seq<u8> {
    "<?xml version=\"1.0\" encoding=\"UTF-8\"?><e:Envelope xmlns:e=\"http://www.w3.org/2003/05/soap-envelope\" xmlns:w=\"http://schemas.xmlsoap.org/ws/2004/08/addressing\" xmlns:d=\"http://schemas.xmlsoap.org/ws/2005/04/discovery\" xmlns:dn=\"http://www.onvif.org/ver10/network/wsdl\"><e:Header><w:MessageID>uuid:".spec_bytes()
}

/// The discovery probe after the message identifier.
pub open spec fn spec_probe_suffix() -> Seq<u8> {
    "</w:MessageID><w:To>urn:schemas-xmlsoap-org:ws:2005:04:discovery</w:To><w:Action>http://schemas.xmlsoap.org/ws/2005/04/discovery/Probe</w:Action></e:Header><e:Body><d:Probe><d:Types>dn:NetworkVideoTransmitter</d:Types></d:Probe></e:Body></e:Envelope>".spec_bytes()
}

/// The request body for each message kind other than discovery.
pub open spec fn spec_msg_body(msg: Messages) -> Seq<u8> {
    match msg {
        Messages::Discovery => Seq::empty(),
        Messages::Capabilities => "<tds:GetCapabilities><tds:Category>All</tds:Category></tds:GetCapabilities>".spec_bytes(),
        Messages::DeviceInfo => "<tds:GetDeviceInformation/>".spec_bytes(),
        Messages::Profiles => "<trt:GetProfiles/>".spec_bytes(),
        Messages::GetStreamURI => "<trt:GetStreamUri><trt:StreamSetup><tt:Stream>RTP-multicast</tt:Stream><tt:Transport><tt:Protocol>RTSP</tt:Protocol></tt:Transport></trt:StreamSetup></trt:GetStreamUri>".spec_bytes(),
        Messages::GetServices => "<tds:GetServices><tds:IncludeCapability>true</tds:IncludeCapability></tds:GetServices>".spec_bytes(),
        Messages::GetServiceCapabilities => "<tds:GetServiceCapabilities/>".spec_bytes(),
        Messages::GetEventProperties => "<tds:GetEventProperties/>".spec_bytes(),
        Messages::CreatePullPointSubscriptionRequest => "<tev:CreatePullPointSubscription/>".spec_bytes(),
        Messages::PullMessages => "<wsnt:PullMessages><wsnt:Timeout>PT5S</wsnt:Timeout><wsnt:MessageLimit>10</wsnt:MessageLimit></wsnt:PullMessages>".spec_bytes(),
    }
}

/// The full request bytes for a message kind: the discovery probe carries
/// the message identifier, every other request is the shared envelope
/// around its body.
pub open spec fn spec_soap_msg(msg: Messages, message_id: Seq<u8>) -> Seq<u8> {
    match msg {
        Messages::Discovery => spec_probe_prefix() + message_id + spec_probe_suffix(),
        _ => spec_env_prefix() + spec_msg_body(msg) + spec_env_suffix(),
    }
}

/// Build the SOAP request bytes for a message kind.  `message_id` is only
/// used by the discovery probe.
pub fn soap_msg(msg_type: &Messages, message_id: &[u8]) -> (r: Vec<u8>)
    ensures
        r@ == spec_soap_msg(*msg_type, message_id@),
{
    let mut r: Vec<u8> = Vec::new();
    match msg_type {
        Messages::Discovery => {
            append_bytes(
                &mut r,
                "<?xml version=\"1.0\" encoding=\"UTF-8\"?><e:Envelope xmlns:e=\"http://www.w3.org/2003/05/soap-envelope\" xmlns:w=\"http://schemas.xmlsoap.org/ws/2004/08/addressing\" xmlns:d=\"http://schemas.xmlsoap.org/ws/2005/04/discovery\" xmlns:dn=\"http://www.onvif.org/ver10/network/wsdl\"><e:Header><w:MessageID>uuid:".as_bytes(),
            );
            append_bytes(&mut r, message_id);
            append_bytes(
                &mut r,
                "</w:MessageID><w:To>urn:schemas-xmlsoap-org:ws:2005:04:discovery</w:To><w:Action>http://schemas.xmlsoap.org/ws/2005/04/discovery/Probe</w:Action></e:Header><e:Body><d:Probe><d:Types>dn:NetworkVideoTransmitter</d:Types></d:Probe></e:Body></e:Envelope>".as_bytes(),
            );
            proof {
                assert(r@ =~= spec_soap_msg(*msg_type, message_id@));
            }
        },
        _ => {
            append_bytes(
                &mut r,
                "<Envelope xmlns=\"http://www.w3.org/2003/05/soap-envelope\" xmlns:tds=\"http://www.onvif.org/ver10/device/wsdl\"><Body>".as_bytes(),
            );
            match msg_type {
                Messages::Discovery => {},
                Messages::Capabilities => {
                    append_bytes(
                        &mut r,
                        "<tds:GetCapabilities><tds:Category>All</tds:Category></tds:GetCapabilities>".as_bytes(),
                    );
                },
                Messages::DeviceInfo => {
                    append_bytes(&mut r, "<tds:GetDeviceInformation/>".as_bytes());
                },
                Messages::Profiles => {
                    append_bytes(&mut r, "<trt:GetProfiles/>".as_bytes());
                },
                Messages::GetStreamURI => {
                    append_bytes(
                        &mut r,
                        "<trt:GetStreamUri><trt:StreamSetup><tt:Stream>RTP-multicast</tt:Stream><tt:Transport><tt:Protocol>RTSP</tt:Protocol></tt:Transport></trt:StreamSetup></trt:GetStreamUri>".as_bytes(),
                    );
                },
                Messages::GetServices => {
                    append_bytes(
                        &mut r,
                        "<tds:GetServices><tds:IncludeCapability>true</tds:IncludeCapability></tds:GetServices>".as_bytes(),
                    );
                },
                Messages::GetServiceCapabilities => {
                    append_bytes(&mut r, "<tds:GetServiceCapabilities/>".as_bytes());
                },
                Messages::GetEventProperties => {
                    append_bytes(&mut r, "<tds:GetEventProperties/>".as_bytes());
                },
                Messages::CreatePullPointSubscriptionRequest => {
                    append_bytes(&mut r, "<tev:CreatePullPointSubscription/>".as_bytes());
                },
                Messages::PullMessages => {
                    append_bytes(
                        &mut r,
                        "<wsnt:PullMessages><wsnt:Timeout>PT5S</wsnt:Timeout><wsnt:MessageLimit>10</wsnt:MessageLimit></wsnt:PullMessages>".as_bytes(),
                    );
                },
            }
            append_bytes(&mut r, "</Body></Envelope>".as_bytes());
            proof {
                assert(r@ =~= spec_soap_msg(*msg_type, message_id@));
            }
        },
    }
    r
}

/// A fresh random message identifier for a discovery probe.
///
/// Relies on uuid::Uuid::new_v4 and the hyphenated form its text
/// rendering documents: 36 ASCII bytes.  Nothing further is assumed of a
/// random identifier.
#[verifier::external_body]
fn fresh_message_id() -> (r: Vec<u8>)
    ensures
        r@.len() == 36,
{
    let id = uuid::Uuid::new_v4();
    format!("{}", id).into_bytes()
}

/// The discovery probe to broadcast, carrying a fresh random message
/// identifier.  Whatever identifier was drawn, the rest of the probe is
/// the fixed template.
pub fn probe_message() -> (r: Vec<u8>)
    ensures
        exists|id: Seq<u8>|
            id.len() == 36 && r@ == #[trigger] spec_soap_msg(Messages::Discovery, id),
{
    let id = fresh_message_id();
    let r = soap_msg(&Messages::Discovery, id.as_slice());
    proof {
        assert(id@.len() == 36 && r@ == spec_soap_msg(Messages::Discovery, id@));
    }
    r
}

/// What `url::Url::parse` accepts of a byte string, and the normalized
/// serialization it returns; a function of the bytes alone.
pub uninterp spec fn url_parse_of(s: Seq<u8>) -> Option<Seq<u8>>;

/// Validate and normalize a URL.
///
/// Relies on url::Url::parse: acceptance and the normalized serialization
/// depend on the input bytes alone.
#[verifier::external_body]
pub(crate) fn parse_url_bytes(s: &[u8]) -> (r: Option<Vec<u8>>)
    ensures
        match r {
            Option::Some(v) => url_parse_of(s@) == Some(v@),
            Option::None => url_parse_of(s@) is None,
        },
{
    match core::str::from_utf8(s) {
        Ok(text) => match url::Url::parse(text) {
            Ok(parsed) => Some(String::from(parsed).into_bytes()),
            Err(_) => None,
        },
        Err(_) => None,
    }
}

// ------------------------------------------------------------------
// Transport retry bookkeeping.
// ------------------------------------------------------------------
/// The fixed transport policy: how often one request may be attempted and
/// how long each attempt may wait.
pub struct RetryPolicy {
    pub max_attempts: u32,
    pub timeout_ms: u32,
}

impl RetryPolicy {
    /// The stock policy: five attempts, one second each.
    pub fn standard() -> (p: RetryPolicy)
        ensures
            p.max_attempts == 5,
            p.timeout_ms == 1000,
    {
        RetryPolicy { max_attempts: 5, timeout_ms: 1000 }
    }
}

/// The attempt counter for one `send` call.  The application performs the
/// HTTP attempt; this records timeouts and says when to give up.
pub struct SendSession {
    pub attempts: u32,
    pub max_attempts: u32,
}

impl SendSession {
    /// Start counting attempts under a policy.
    pub fn new(policy: &RetryPolicy) -> (s: SendSession)
        ensures
            s.attempts == 0,
            s.max_attempts == policy.max_attempts,
    {
        SendSession { attempts: 0, max_attempts: policy.max_attempts }
    }

    /// Whether another attempt is allowed.
    pub fn may_attempt(&self) -> (r: bool)
        ensures
            r == (self.attempts < self.max_attempts),
    {
        self.attempts < self.max_attempts
    }

    /// Record one timed-out attempt.
    pub fn record_timeout(&mut self)
        requires
            old(self).attempts < old(self).max_attempts,
        ensures
            final(self).attempts == old(self).attempts + 1,
            final(self).max_attempts == old(self).max_attempts,
    {
        self.attempts = self.attempts + 1;
    }

    /// The hard failure after the budget is spent: `TransportExhausted`,
    /// naming the request and the device it was for.
    pub fn exhausted_error(&self, msg: &Messages, url: &[u8]) -> (e: OnvifError)
        ensures
            e matches OnvifError::TransportExhausted { msg: m, url: u } && m == *msg && u@ == url@,
    {
        OnvifError::TransportExhausted { msg: *msg, url: sub_to_vec(url, 0, url.len()) }
    }
}

// ------------------------------------------------------------------
// The discovery engine.
// ------------------------------------------------------------------
/// The fixed discovery budget: how often the probe is broadcast, how many
/// receives each broadcast waits for, and the wait per receive.
pub struct DiscoveryConfig {
    pub max_sends: u32,
    pub max_recvs_per_send: u32,
    pub recv_timeout_ms: u32,
}

impl DiscoveryConfig {
    /// The stock budget: two broadcasts, five receives each, two seconds
    /// per receive.
    pub fn standard() -> (c: DiscoveryConfig)
        ensures
            c.max_sends == 2,
            c.max_recvs_per_send == 5,
            c.recv_timeout_ms == 2000,
    {
        DiscoveryConfig { max_sends: 2, max_recvs_per_send: 5, recv_timeout_ms: 2000 }
    }
}

/// The ghost shape of a discovered device.
pub struct DeviceModel {
    pub url: Seq<u8>,
    pub device_type: DeviceTypes,
    pub scopes: Seq<Seq<u8>>,
}

impl Device {
    /// The ghost shape of this device.
    pub open spec fn model(&self) -> DeviceModel {
        DeviceModel {
            url: self.url_onvif@,
            device_type: self.device_type,
            scopes: self.scopes.deep_view(),
        }
    }
}

/// The ghost state of a discovery session: which sender addresses have
/// been heard, and the devices collected so far.
pub struct SessionModel {
    pub seen: Seq<Seq<u8>>,
    pub found: Seq<DeviceModel>,
}

/// The control URL a reply yields: the first `XAddrs` text, if the URL
/// crate accepts it.
pub open spec fn spec_reply_url(payload: Seq<u8>) -> Option<Seq<u8>> {
    let xs = spec_parse_soap(payload, "XAddrs".spec_bytes(), None, true, false);
    if xs.len() == 0 {
        None
    } else {
        url_parse_of(xs[0])
    }
}

/// The device type a reply declares; `Unknown` when no `Types` is present.
pub open spec fn spec_reply_type(payload: Seq<u8>) -> DeviceTypes {
    let ts = spec_parse_soap(payload, "Types".spec_bytes(), None, true, false);
    if ts.len() == 0 {
        DeviceTypes::Unknown
    } else {
        spec_device_type(ts[0])
    }
}

/// The scope list a reply carries: the first `Scopes` text split on
/// spaces; empty when no `Scopes` is present.
pub open spec fn spec_reply_scopes(payload: Seq<u8>) -> Seq<Seq<u8>> {
    let ss = spec_parse_soap(payload, "Scopes".spec_bytes(), None, true, false);
    if ss.len() == 0 {
        Seq::empty()
    } else {
        spec_split(ss[0], 32)
    }
}

/// The ghost device a reply yields, when it yields one.
pub open spec fn spec_reply_device(payload: Seq<u8>, url: Seq<u8>) -> DeviceModel {
    DeviceModel {
        url: url,
        device_type: spec_reply_type(payload),
        scopes: spec_reply_scopes(payload),
    }
}

/// One step of the discovery engine: a reply from an already-seen address
/// changes nothing; a fresh address is recorded, and yields a device
/// exactly when its `XAddrs` URL is usable.
pub open spec fn spec_handle_reply(
    m: SessionModel,
    addr: Seq<u8>,
    payload: Seq<u8>,
) -> SessionModel {
    if m.seen.contains(addr) {
        m
    } else {
        match spec_reply_url(payload) {
            Some(u) => SessionModel {
                seen: m.seen.push(addr),
                found: m.found.push(spec_reply_device(payload, u)),
            },
            None => SessionModel { seen: m.seen.push(addr), found: m.found },
        }
    }
}

/// Two replies from one source address leave one record: after the first
/// reply is handled, the second changes nothing, whatever either carried.
pub proof fn lemma_discovery_dedup(m: SessionModel, addr: Seq<u8>, p1: Seq<u8>, p2: Seq<u8>)
    ensures
        spec_handle_reply(spec_handle_reply(m, addr, p1), addr, p2) == spec_handle_reply(
            m,
            addr,
            p1,
        ),
{
    if !m.seen.contains(addr) {
        assert(m.seen.push(addr)[m.seen.len() as int] == addr);
        assert(m.seen.push(addr).contains(addr));
    }
}

/// One discovery run: the deduplication set and the devices collected.
pub struct DiscoverySession {
    pub seen_addrs: Vec<Vec<u8>>,
    pub devices_found: Vec<Device>,
}

impl DiscoverySession {
    /// The ghost state of this session.
    pub open spec fn model(&self) -> SessionModel {
        SessionModel {
            seen: self.seen_addrs.deep_view(),
            found: self.devices_found@.map_values(|d: Device| d.model()),
        }
    }

    /// A session that has heard nothing.
    pub fn new() -> (s: DiscoverySession)
        ensures
            s.model().seen.len() == 0,
            s.model().found.len() == 0,
    {
        DiscoverySession { seen_addrs: Vec::new(), devices_found: Vec::new() }
    }

    /// Whether a sender address was already heard from.
    fn contains_addr(&self, addr: &[u8]) -> (r: bool)
        ensures
            r == self.model().seen.contains(addr@),
    {
        let n = self.seen_addrs.len();
        let mut i: usize = 0;
        while i < n
            invariant
                i <= n,
                n == self.seen_addrs@.len(),
                forall|k: int| 0 <= k < i ==> self.seen_addrs.deep_view()[k] != addr@,
            decreases n - i,
        {
            proof {
                assert(self.seen_addrs.deep_view()[i as int] == self.seen_addrs@[i as int]@);
            }
            if bytes_eq(self.seen_addrs[i].as_slice(), addr) {
                assert(self.model().seen[i as int] == addr@);
                return true;
            }
            i += 1;
        }
        assert(!self.model().seen.contains(addr@)) by {
            assert(forall|k: int|
                0 <= k < self.model().seen.len() ==> self.model().seen[k] != addr@);
        }
        false
    }

    /// Handle one UDP reply: deduplicate by sender address, then extract
    /// the control URL, device type and scopes.  Returns whether a device
    /// was added.
    pub fn handle_reply(&mut self, addr: &[u8], payload: &[u8]) -> (added: bool)
        ensures
            final(self).model() == spec_handle_reply(old(self).model(), addr@, payload@),
            added == (!old(self).model().seen.contains(addr@) && spec_reply_url(payload@) is Some),
    {
        let ghost old_model = self.model();
        if self.contains_addr(addr) {
            return false;
        }
        let addr_copy = sub_to_vec(addr, 0, addr.len());
        proof {
            assert(addr_copy@ =~= addr@);
        }
        self.seen_addrs.push(addr_copy);
        proof {
            assert(self.seen_addrs.deep_view() =~~= old_model.seen.push(addr@));
            assert(self.model().found =~~= old_model.found);
        }
        let xaddrs = parse_soap(payload, "XAddrs".as_bytes(), None, true, false);
        if xaddrs.len() == 0 {
            proof {
                assert(spec_reply_url(payload@) is None);
                assert(self.model() == spec_handle_reply(old_model, addr@, payload@));
            }
            return false;
        }
        let url = parse_url_bytes(xaddrs[0].as_slice());
        match url {
            Option::None => {
                proof {
                    assert(xaddrs.deep_view()[0] == xaddrs@[0]@);
                    assert(spec_reply_url(payload@) is None);
                    assert(self.model() == spec_handle_reply(old_model, addr@, payload@));
                }
                false
            },
            Option::Some(u) => {
                let ghost mid_model = self.model();
                let types_list = parse_soap(payload, "Types".as_bytes(), None, true, false);
                let dtype = if types_list.len() == 0 {
                    DeviceTypes::Unknown
                } else {
                    parse_device_type(types_list[0].as_slice())
                };
                let scopes_list = parse_soap(payload, "Scopes".as_bytes(), None, true, false);
                let scopes: Vec<Vec<u8>> = if scopes_list.len() == 0 {
                    Vec::new()
                } else {
                    split_bytes(scopes_list[0].as_slice(), 32)
                };
                let ghost gu = u@;
                let device = Device { url_onvif: u, device_type: dtype, scopes };
                proof {
                    assert(xaddrs.deep_view()[0] == xaddrs@[0]@);
                    assert(spec_reply_url(payload@) == Some(gu));
                    if types_list@.len() > 0 {
                        assert(types_list.deep_view()[0] == types_list@[0]@);
                    }
                    if scopes_list@.len() > 0 {
                        assert(scopes_list.deep_view()[0] == scopes_list@[0]@);
                    }
                    assert(device.model().scopes =~~= spec_reply_scopes(payload@));
                    assert(device.model() == spec_reply_device(payload@, gu));
                }
                self.devices_found.push(device);
                proof {
                    assert(self.model().found =~~= mid_model.found.push(
                        spec_reply_device(payload@, gu),
                    ));
                    assert(self.model().seen =~~= old_model.seen.push(addr@));
                    assert(self.model() == spec_handle_reply(old_model, addr@, payload@));
                }
                true
            },
        }
    }

    /// Close the session.  Hearing no device at all is a hard failure,
    /// `NoDevicesFound`; otherwise every collected device is returned.
    pub fn finish(self) -> (r: Result<Vec<Device>, OnvifError>)
        ensures
            r matches Ok(v) ==> v@.len() > 0 && v == self.devices_found,
            r matches Err(e) ==> e is NoDevicesFound && self.model().found.len() == 0,
    {
        if self.devices_found.len() == 0 {
            Err(OnvifError::NoDevicesFound)
        } else {
            Ok(self.devices_found)
        }
    }
}

/// A client and the cameras it knows, whether restored from the registry
/// file or freshly discovered.
pub struct Client {
    pub device_file_exists: bool,
    pub devices: Vec<crate::camera::Camera>,
}

impl Client {
    /// A client over a known camera list.  `from_file` records whether
    /// the list came from the registry file rather than discovery.
    pub fn with_devices(devices: Vec<crate::camera::Camera>, from_file: bool) -> (c: Client)
        ensures
            c.devices == devices,
            c.device_file_exists == from_file,
    {
        Client { device_file_exists: from_file, devices }
    }

    /// The RTSP streaming URL of one camera.  An empty client or an index
    /// past the list is `NoDevicesFound`; a camera whose stream stage has
    /// not succeeded is `MissingField`.
    pub fn get_stream_uri(&self, camera_index: usize) -> (r: Result<Vec<u8>, OnvifError>)
        ensures
            camera_index >= self.devices@.len() ==> (r matches Err(e) && e is NoDevicesFound),
            camera_index < self.devices@.len() ==> match r {
                Ok(v) => self.devices@[camera_index as int].spec_rtsp() == Some(v@),
                Err(e) => e is MissingField && self.devices@[
                    camera_index as int
                ].spec_rtsp() is None,
            },
    {
        if camera_index >= self.devices.len() {
            return Err(OnvifError::NoDevicesFound);
        }
        self.devices[camera_index].get_stream_uri()
    }
}

} // verus!
