//! The registry codec: the exact line format, the save/load round trip,
//! and the load failure modes.

use onvif_cam::camera::Camera;
use onvif_cam::client::Client;
use onvif_cam::device::Device;
use onvif_cam::device::DeviceTypes;
use onvif_cam::device::StreamUri;
use onvif_cam::error::OnvifError;
use onvif_cam::registry::registry_encode;
use onvif_cam::registry::registry_parse;

fn camera(url: &[u8], rtsp: Option<&[u8]>) -> Camera {
    let mut cam = Camera::new(Device {
        url_onvif: url.to_vec(),
        device_type: DeviceTypes::Camera,
        scopes: Vec::new(),
    });
    if let Some(r) = rtsp {
        cam.stream = Some(StreamUri {
            uri: Some(r.to_vec()),
            timeout: None,
            invalid_connect: None,
        });
    }
    cam
}

#[test]
fn encode_writes_one_line_per_camera() {
    let cams = vec![camera(b"http://cam/onvif/device_service", Some(b"rtsp://cam:554/s"))];
    let bytes = registry_encode(&cams).unwrap();
    assert_eq!(bytes, b"IP: rtsp://cam:554/s ONVIF: http://cam/onvif/device_service\n".to_vec());
}

#[test]
fn encode_leaves_the_stream_field_empty_without_a_stream() {
    let cams = vec![camera(b"http://cam/onvif/device_service", None)];
    let bytes = registry_encode(&cams).unwrap();
    assert_eq!(bytes, b"IP:  ONVIF: http://cam/onvif/device_service\n".to_vec());
}

#[test]
fn encode_refuses_an_empty_list() {
    let cams: Vec<Camera> = Vec::new();
    assert!(matches!(registry_encode(&cams), Err(OnvifError::RegistryUnavailable)));
}

#[test]
fn save_then_load_reconstructs_two_cameras() {
    let cams = vec![
        camera(b"http://one/onvif/device_service", Some(b"rtsp://one:554/s")),
        camera(b"http://two/onvif/device_service", None),
    ];
    let bytes = registry_encode(&cams).unwrap();
    let loaded = registry_parse(&bytes).unwrap();
    assert_eq!(loaded.len(), 2);
    assert_eq!(loaded[0].base.url_onvif, b"http://one/onvif/device_service".to_vec());
    assert_eq!(
        loaded[0].stream.as_ref().unwrap().uri,
        Some(b"rtsp://one:554/s".to_vec())
    );
    assert_eq!(loaded[1].base.url_onvif, b"http://two/onvif/device_service".to_vec());
    assert!(loaded[1].stream.is_none());
}

#[test]
fn load_refuses_an_empty_file() {
    assert!(matches!(registry_parse(b""), Err(OnvifError::RegistryUnavailable)));
}

#[test]
fn load_refuses_a_file_without_the_ip_marker() {
    assert!(matches!(
        registry_parse(b"something else entirely\n"),
        Err(OnvifError::RegistryUnavailable)
    ));
}

#[test]
fn load_refuses_a_malformed_line() {
    assert!(matches!(
        registry_parse(b"IP: rtsp://x\n"),
        Err(OnvifError::RegistryUnavailable)
    ));
}

#[test]
fn client_serves_stream_uris_from_loaded_cameras() {
    let cams = vec![
        camera(b"http://one/onvif/device_service", Some(b"rtsp://one:554/s")),
        camera(b"http://two/onvif/device_service", None),
    ];
    let bytes = registry_encode(&cams).unwrap();
    let loaded = registry_parse(&bytes).unwrap();
    let client = Client::with_devices(loaded, true);
    assert!(client.device_file_exists);
    assert_eq!(client.get_stream_uri(0).unwrap(), b"rtsp://one:554/s".to_vec());
    assert!(matches!(client.get_stream_uri(1), Err(OnvifError::MissingField { .. })));
    assert!(matches!(client.get_stream_uri(2), Err(OnvifError::NoDevicesFound)));
}
