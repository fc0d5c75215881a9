//! The builder stages on concrete SOAP responses, and the pipeline's
//! degradation behaviour.

use onvif_cam::builder::set_capabilities;
use onvif_cam::builder::set_device_info;
use onvif_cam::builder::set_profiles;
use onvif_cam::builder::set_service_capabilities;
use onvif_cam::builder::set_services;
use onvif_cam::builder::set_stream_uri;
use onvif_cam::camera::Camera;
use onvif_cam::camera::Pipeline;
use onvif_cam::client::Messages;
use onvif_cam::device::AnalyticsCapabilities;
use onvif_cam::device::Device;
use onvif_cam::device::DeviceTypes;
use onvif_cam::device::EventCapabilities;
use onvif_cam::device::ServiceCapabilities;

fn bare_camera() -> Camera {
    Camera::new(Device {
        url_onvif: b"http://cam/onvif/device_service".to_vec(),
        device_type: DeviceTypes::Camera,
        scopes: Vec::new(),
    })
}

#[test]
fn capabilities_stage_scopes_each_category() {
    let resp = b"<Envelope><Media><XAddr>http://cam/onvif/media</XAddr></Media><Events><XAddr>http://cam/onvif/events</XAddr></Events></Envelope>";
    let caps = set_capabilities(resp);
    assert_eq!(caps.url_media, Some(b"http://cam/onvif/media".to_vec()));
    assert_eq!(caps.url_events, Some(b"http://cam/onvif/events".to_vec()));
    assert_eq!(caps.url_ptz, None);
    assert_eq!(caps.url_imaging, None);
}

#[test]
fn device_info_stage_reads_flat_fields() {
    let resp = b"<Envelope><Manufacturer>Acme</Manufacturer><Model>Eye-9</Model><FirmwareVersion>1.2.3</FirmwareVersion><SerialNumber>SN42</SerialNumber><HardwareId>HW7</HardwareId></Envelope>";
    let info = set_device_info(resp);
    assert_eq!(info.manufacturer, Some(b"Acme".to_vec()));
    assert_eq!(info.model, Some(b"Eye-9".to_vec()));
    assert_eq!(info.firmware_version, Some(b"1.2.3".to_vec()));
    assert_eq!(info.serial_num, Some(b"SN42".to_vec()));
    assert_eq!(info.hardware_id, Some(b"HW7".to_vec()));
}

#[test]
fn profiles_stage_reads_dimensions_and_codecs() {
    let resp = b"<Envelope><Width>1920</Width><Height>1080</Height><VideoEncoderConfiguration><Encoding>H264</Encoding></VideoEncoderConfiguration><AudioEncoderConfiguration><Encoding>AAC</Encoding></AudioEncoderConfiguration><H264Profile>Main</H264Profile></Envelope>";
    let profile = set_profiles(resp);
    assert_eq!(profile.video_width, Some(1920));
    assert_eq!(profile.video_height, Some(1080));
    assert_eq!(profile.video_codec, Some(b"H264".to_vec()));
    assert_eq!(profile.audio_codec, Some(b"AAC".to_vec()));
    assert_eq!(profile.h264_profile, Some(b"Main".to_vec()));
    assert_eq!(profile.video_dim(), Some((1920, 1080)));
}

#[test]
fn profiles_stage_degrades_field_by_field() {
    // No Height element: the width is kept and the height alone is absent.
    let resp = b"<Envelope><Width>1920</Width><VideoEncoderConfiguration><Encoding>H264</Encoding></VideoEncoderConfiguration></Envelope>";
    let profile = set_profiles(resp);
    assert_eq!(profile.video_width, Some(1920));
    assert_eq!(profile.video_height, None);
    assert_eq!(profile.video_dim(), None);
}

#[test]
fn degraded_profiles_stage_does_not_block_the_stream_stage() {
    let mut cam = bare_camera();
    let mut pipeline = Pipeline::new();
    pipeline.apply_response(&mut cam, b"<Envelope></Envelope>");
    pipeline.apply_response(&mut cam, b"<Envelope></Envelope>");
    // GetProfiles response missing Height
    pipeline.apply_response(&mut cam, b"<Envelope><Width>1920</Width></Envelope>");
    let p = cam.profiles.as_ref().unwrap();
    assert_eq!(p.video_width, Some(1920));
    assert_eq!(p.video_height, None);
    // the pipeline still asks for the stream URI next, and that stage runs
    assert!(matches!(pipeline.next_message(&cam), Some(Messages::GetStreamURI)));
    pipeline.apply_response(
        &mut cam,
        b"<Envelope><Uri>rtsp://cam:554/stream1</Uri><Timeout>PT60S</Timeout><InvalidAfterConnect>false</InvalidAfterConnect></Envelope>",
    );
    assert_eq!(cam.get_stream_uri().unwrap(), b"rtsp://cam:554/stream1".to_vec());
}

#[test]
fn stream_stage_reads_uri_timeout_and_flag() {
    let resp = b"<Envelope><Uri>rtsp://cam:554/s</Uri><Timeout>PT60S</Timeout><InvalidAfterConnect>false</InvalidAfterConnect></Envelope>";
    let stream = set_stream_uri(resp);
    assert_eq!(stream.uri, Some(b"rtsp://cam:554/s".to_vec()));
    assert_eq!(stream.timeout, Some(b"PT60S".to_vec()));
    assert_eq!(stream.invalid_connect, Some(b"false".to_vec()));
}

#[test]
fn services_classification_from_three_addresses() {
    let resp = b"<Envelope><Service><XAddr>http://cam/onvif/device_service</XAddr></Service><Service><XAddr>http://cam/onvif/media_service</XAddr></Service><Service><XAddr>http://cam/onvif/events_service</XAddr></Service></Envelope>";
    let services = set_services(resp);
    assert_eq!(services.media, Some(b"http://cam/onvif/media_service".to_vec()));
    assert_eq!(services.event, Some(b"http://cam/onvif/events_service".to_vec()));
    assert_eq!(services.analytics, None);
    assert_eq!(services.ptz, None);
    assert_eq!(services.imaging, None);
    assert_eq!(services.io, None);
    assert_eq!(services.media2, None);
}

#[test]
fn later_service_address_replaces_an_earlier_one() {
    let resp = b"<Envelope><XAddr>http://cam/onvif/ptz_old</XAddr><XAddr>http://cam/onvif/ptz_new</XAddr></Envelope>";
    let services = set_services(resp);
    assert_eq!(services.ptz, Some(b"http://cam/onvif/ptz_new".to_vec()));
}

#[test]
fn event_capabilities_from_attribute_pairs() {
    let resp = b"<Envelope><tds:Capabilities PullPointSupport=\"true\" MaxPullPoints=\"2\" PausableSubscription=\"false\" Flavour=\"odd\"/></Envelope>";
    let caps: EventCapabilities = set_service_capabilities(EventCapabilities::default(), resp);
    assert_eq!(caps.pull_point_support, Some(true));
    assert_eq!(caps.max_pull_points, Some(2));
    assert_eq!(caps.pause_support, Some(false));
    assert_eq!(caps.sub_policy_support, None);
    assert_eq!(caps.max_notif_produce, None);
    assert_eq!(caps.persist_notif_store, None);
}

#[test]
fn event_capability_value_that_is_not_boolean_stays_absent() {
    let mut caps = EventCapabilities::default();
    caps.set_prop_with_pair((b"PullPointSupport".as_slice(), b"maybe".as_slice()));
    assert_eq!(caps.pull_point_support, None);
}

#[test]
fn analytics_capabilities_from_pairs() {
    let mut caps = AnalyticsCapabilities::default();
    caps.set_prop_with_pair((b"RuleSupport".as_slice(), b"true".as_slice()));
    caps.set_prop_with_pair((b"ImageSendingType".as_slice(), b"Embedded".as_slice()));
    caps.set_prop_with_pair((b"SomethingElse".as_slice(), b"x".as_slice()));
    assert_eq!(caps.rule_support, Some(true));
    assert_eq!(caps.image_sending_type, Some(b"Embedded".to_vec()));
    assert_eq!(caps.analytics_module, None);
}

#[test]
fn pipeline_runs_event_stage_only_with_an_event_url() {
    let mut cam = bare_camera();
    let mut pipeline = Pipeline::new();
    for _ in 0..4 {
        pipeline.apply_response(&mut cam, b"<Envelope></Envelope>");
    }
    // GetServices response without an event service
    pipeline.apply_response(&mut cam, b"<Envelope><XAddr>http://cam/onvif/media_service</XAddr></Envelope>");
    assert!(pipeline.next_message(&cam).is_none());

    let mut cam2 = bare_camera();
    let mut pipeline2 = Pipeline::new();
    for _ in 0..4 {
        pipeline2.apply_response(&mut cam2, b"<Envelope></Envelope>");
    }
    pipeline2.apply_response(&mut cam2, b"<Envelope><XAddr>http://cam/onvif/events_service</XAddr></Envelope>");
    assert!(matches!(pipeline2.next_message(&cam2), Some(Messages::GetServiceCapabilities)));
    assert_eq!(
        pipeline2.request_url(&cam2),
        Some(b"http://cam/onvif/events_service".to_vec())
    );
}

#[test]
fn pipeline_visits_stages_in_the_fixed_order() {
    let cam = bare_camera();
    let mut pipeline = Pipeline::new();
    assert!(matches!(pipeline.next_message(&cam), Some(Messages::Capabilities)));
    assert_eq!(pipeline.request_url(&cam), Some(b"http://cam/onvif/device_service".to_vec()));
    let mut cam = cam;
    pipeline.apply_response(&mut cam, b"<Envelope></Envelope>");
    assert!(matches!(pipeline.next_message(&cam), Some(Messages::DeviceInfo)));
    pipeline.apply_response(&mut cam, b"<Envelope></Envelope>");
    assert!(matches!(pipeline.next_message(&cam), Some(Messages::Profiles)));
}
