//! The discovery engine: deduplication, reply parsing, the hard failure
//! on silence, and the probe and request templates.

use onvif_cam::client::Client;
use onvif_cam::client::DiscoveryConfig;
use onvif_cam::client::DiscoverySession;
use onvif_cam::client::Messages;
use onvif_cam::client::RetryPolicy;
use onvif_cam::client::SendSession;
use onvif_cam::client::probe_message;
use onvif_cam::client::soap_msg;
use onvif_cam::device::DeviceTypes;
use onvif_cam::device::parse_device_type;
use onvif_cam::error::OnvifError;

fn sample_reply(url: &str) -> Vec<u8> {
    let mut doc = Vec::new();
    doc.extend_from_slice(b"<e:Envelope><d:XAddrs>");
    doc.extend_from_slice(url.as_bytes());
    doc.extend_from_slice(b"</d:XAddrs><d:Types>dn:NetworkVideoTransmitter</d:Types><d:Scopes>onvif://www.onvif.org/name/Cam onvif://www.onvif.org/location/hall</d:Scopes></e:Envelope>");
    doc
}

#[test]
fn two_replies_from_one_address_yield_one_device() {
    let mut session = DiscoverySession::new();
    let first = session.handle_reply(b"192.168.1.5:3702", &sample_reply("http://192.168.1.5/onvif/device_service"));
    let second = session.handle_reply(b"192.168.1.5:3702", &sample_reply("http://192.168.1.5/onvif/device_service"));
    assert!(first);
    assert!(!second);
    assert_eq!(session.devices_found.len(), 1);
}

#[test]
fn distinct_addresses_yield_distinct_devices() {
    let mut session = DiscoverySession::new();
    session.handle_reply(b"192.168.1.5:3702", &sample_reply("http://192.168.1.5/onvif/device_service"));
    session.handle_reply(b"192.168.1.6:3702", &sample_reply("http://192.168.1.6/onvif/device_service"));
    assert_eq!(session.devices_found.len(), 2);
}

#[test]
fn no_replies_fail_with_no_devices_found() {
    let session = DiscoverySession::new();
    assert!(matches!(session.finish(), Err(OnvifError::NoDevicesFound)));
}

#[test]
fn collected_devices_are_returned() {
    let mut session = DiscoverySession::new();
    session.handle_reply(b"192.168.1.5:3702", &sample_reply("http://192.168.1.5/onvif/device_service"));
    let devices = session.finish().unwrap();
    assert_eq!(devices.len(), 1);
    assert_eq!(devices[0].url_onvif, b"http://192.168.1.5/onvif/device_service".to_vec());
    assert!(matches!(devices[0].device_type, DeviceTypes::Camera));
    assert_eq!(devices[0].scopes.len(), 2);
    assert_eq!(devices[0].scopes[0], b"onvif://www.onvif.org/name/Cam".to_vec());
}

#[test]
fn reply_url_is_normalized_by_the_url_crate() {
    // A bare authority gains its root path: proof the URL really went
    // through parsing rather than being stored verbatim.
    let mut session = DiscoverySession::new();
    session.handle_reply(b"192.168.1.9:3702", &sample_reply("http://192.168.1.9"));
    let devices = session.finish().unwrap();
    assert_eq!(devices[0].url_onvif, b"http://192.168.1.9/".to_vec());
}

#[test]
fn reply_with_unusable_url_is_skipped() {
    let mut session = DiscoverySession::new();
    let added = session.handle_reply(b"192.168.1.7:3702", &sample_reply("not a url"));
    assert!(!added);
    assert_eq!(session.devices_found.len(), 0);
}

#[test]
fn reply_without_xaddrs_is_skipped() {
    let mut session = DiscoverySession::new();
    let added = session.handle_reply(b"192.168.1.8:3702", b"<e:Envelope><d:Types>x</d:Types></e:Envelope>");
    assert!(!added);
    assert_eq!(session.devices_found.len(), 0);
}

#[test]
fn device_type_classification() {
    assert!(matches!(parse_device_type(b"dn:NetworkVideoTransmitter tds:Device"), DeviceTypes::Camera));
    assert!(matches!(parse_device_type(b"dn:Doorbell"), DeviceTypes::Doorbell));
    assert!(matches!(parse_device_type(b"dn:Printer"), DeviceTypes::Unknown));
}

#[test]
fn probe_message_has_the_template_around_a_36_byte_id() {
    let probe = probe_message();
    let prefix = b"<?xml version=\"1.0\" encoding=\"UTF-8\"?><e:Envelope";
    assert_eq!(&probe[..prefix.len()], &prefix[..]);
    let suffix = b"</d:Probe></e:Body></e:Envelope>";
    assert_eq!(&probe[probe.len() - suffix.len()..], &suffix[..]);
    let fixed = soap_msg(&Messages::Discovery, b"000000000000000000000000000000000000");
    assert_eq!(probe.len(), fixed.len());
}

#[test]
fn capabilities_request_is_the_exact_template() {
    let msg = soap_msg(&Messages::Capabilities, b"");
    let expected = b"<Envelope xmlns=\"http://www.w3.org/2003/05/soap-envelope\" xmlns:tds=\"http://www.onvif.org/ver10/device/wsdl\"><Body><tds:GetCapabilities><tds:Category>All</tds:Category></tds:GetCapabilities></Body></Envelope>";
    assert_eq!(msg, expected.to_vec());
}

#[test]
fn stream_uri_request_names_rtsp_transport() {
    let msg = soap_msg(&Messages::GetStreamURI, b"");
    let text = String::from_utf8(msg).unwrap();
    assert!(text.contains("<trt:GetStreamUri>"));
    assert!(text.contains("<tt:Protocol>RTSP</tt:Protocol>"));
}

#[test]
fn retry_budget_is_five_attempts_then_exhausted() {
    let policy = RetryPolicy::standard();
    assert_eq!(policy.max_attempts, 5);
    assert_eq!(policy.timeout_ms, 1000);
    let mut send = SendSession::new(&policy);
    let mut attempts = 0;
    while send.may_attempt() {
        send.record_timeout();
        attempts += 1;
    }
    assert_eq!(attempts, 5);
    let err = send.exhausted_error(&Messages::GetStreamURI, b"http://cam/onvif/device_service");
    match err {
        OnvifError::TransportExhausted { msg, url } => {
            assert!(matches!(msg, Messages::GetStreamURI));
            assert_eq!(url, b"http://cam/onvif/device_service".to_vec());
        },
        _ => panic!("expected TransportExhausted"),
    }
}

#[test]
fn discovery_budget_defaults() {
    let config = DiscoveryConfig::standard();
    assert_eq!(config.max_sends, 2);
    assert_eq!(config.max_recvs_per_send, 5);
    assert_eq!(config.recv_timeout_ms, 2000);
}

#[test]
fn camera_from_url_normalizes_or_rejects() {
    let cam = onvif_cam::camera::Camera::from_url(b"http://192.168.1.5").unwrap();
    assert_eq!(cam.base.url_onvif, b"http://192.168.1.5/".to_vec());
    assert!(matches!(cam.base.device_type, DeviceTypes::Camera));
    assert!(onvif_cam::camera::Camera::from_url(b"not a url").is_none());
}

#[test]
fn client_stream_uri_errors() {
    let client = Client::with_devices(Vec::new(), false);
    assert!(matches!(client.get_stream_uri(0), Err(OnvifError::NoDevicesFound)));
}
