//! The data model: a discovered device, its typed capability sub-records,
//! and the keyword classifiers that fill them.
//!
//! Text is carried as raw bytes throughout; a value is absent (`None`)
//! until the pipeline stage that supplies it has run and found it.

use vstd::prelude::*;
use vstd::string::StringSliceAdditionalSpecFns;

use crate::text::spec_contains;
use crate::text::contains_sub;
use crate::text::spec_parse_bool;
use crate::text::parse_bool;
use crate::text::all_digits;
use crate::text::spec_digits_value;
use crate::text::parse_u8_num;
use crate::text::append_bytes;

verus! {

/// What a discovery reply declares itself to be.
#[derive(Clone, Copy, Debug, PartialEq, Eq, Structural)]
pub enum DeviceTypes {
    Camera,
    Doorbell,
    Unknown,
}

/// The classification `parse_device_type` performs on a `Types` token
/// string: the first matching keyword wins.
pub open spec fn spec_device_type(s: Seq<u8>) -> DeviceTypes {
    if spec_contains(s, "NetworkVideoTransmitter".spec_bytes()) {
        DeviceTypes::Camera
    } else if spec_contains(s, "Doorbell".spec_bytes()) {
        DeviceTypes::Doorbell
    } else {
        DeviceTypes::Unknown
    }
}

/// Classify a discovery reply's `Types` value by keyword.
pub fn parse_device_type(dev_type: &[u8]) -> (r: DeviceTypes)
    ensures
        r == spec_device_type(dev_type@),
{
    if contains_sub(dev_type, "NetworkVideoTransmitter".as_bytes()) {
        DeviceTypes::Camera
    } else if contains_sub(dev_type, "Doorbell".as_bytes()) {
        DeviceTypes::Doorbell
    } else {
        DeviceTypes::Unknown
    }
}

/// A bare device as discovery reports it: the ONVIF control URL, the
/// declared type, and the scope strings.
#[derive(Clone, Debug)]
pub struct Device {
    pub url_onvif: Vec<u8>,
    pub device_type: DeviceTypes,
    pub scopes: Vec<Vec<u8>>,
}

impl Device {
    /// A placeholder device pointing at the local host, with no scopes.
    pub fn new() -> (d: Device)
        ensures
            d.url_onvif@ == "http://127.0.0.1".spec_bytes(),
            d.device_type == DeviceTypes::Unknown,
            d.scopes@.len() == 0,
    {
        let mut url: Vec<u8> = Vec::new();
        append_bytes(&mut url, "http://127.0.0.1".as_bytes());
        Device { url_onvif: url, device_type: DeviceTypes::Unknown, scopes: Vec::new() }
    }
}

/// Service endpoint URLs from a GetCapabilities response.
#[derive(Clone, Debug)]
pub struct Capabilities {
    pub url_media: Option<Vec<u8>>,
    pub url_events: Option<Vec<u8>>,
    pub url_analytics: Option<Vec<u8>>,
    pub url_ptz: Option<Vec<u8>>,
    pub url_imaging: Option<Vec<u8>>,
}

impl Default for Capabilities {
    /// All endpoints absent.
    fn default() -> (d: Capabilities)
        ensures
            d == (Capabilities {
                url_media: None,
                url_events: None,
                url_analytics: None,
                url_ptz: None,
                url_imaging: None,
            }),
    {
        Capabilities {
            url_media: None,
            url_events: None,
            url_analytics: None,
            url_ptz: None,
            url_imaging: None,
        }
    }
}

/// Identity strings from a GetDeviceInformation response.
#[derive(Clone, Debug)]
pub struct DeviceInfo {
    pub firmware_version: Option<Vec<u8>>,
    pub serial_num: Option<Vec<u8>>,
    pub hardware_id: Option<Vec<u8>>,
    pub model: Option<Vec<u8>>,
    pub manufacturer: Option<Vec<u8>>,
}

impl Default for DeviceInfo {
    /// All identity fields absent.
    fn default() -> (d: DeviceInfo)
        ensures
            d == (DeviceInfo {
                firmware_version: None,
                serial_num: None,
                hardware_id: None,
                model: None,
                manufacturer: None,
            }),
    {
        DeviceInfo {
            firmware_version: None,
            serial_num: None,
            hardware_id: None,
            model: None,
            manufacturer: None,
        }
    }
}

/// Encoding parameters from the first profile of a GetProfiles response.
#[derive(Clone, Debug)]
pub struct Profiles {
    pub name: Option<Vec<u8>>,
    pub video_width: Option<u32>,
    pub video_height: Option<u32>,
    pub video_codec: Option<Vec<u8>>,
    pub audio_codec: Option<Vec<u8>>,
    pub h264_profile: Option<Vec<u8>>,
}

impl Default for Profiles {
    /// All profile fields absent.
    fn default() -> (d: Profiles)
        ensures
            d == (Profiles {
                name: None,
                video_width: None,
                video_height: None,
                video_codec: None,
                audio_codec: None,
                h264_profile: None,
            }),
    {
        Profiles {
            name: None,
            video_width: None,
            video_height: None,
            video_codec: None,
            audio_codec: None,
            h264_profile: None,
        }
    }
}

impl Profiles {
    /// The video dimensions, present only when width and height both are.
    pub fn video_dim(&self) -> (r: Option<(u32, u32)>)
        ensures
            r matches Some(d) ==> self.video_width == Some(d.0) && self.video_height == Some(d.1),
            r is None ==> self.video_width is None || self.video_height is None,
    {
        match (self.video_width, self.video_height) {
            (Option::Some(w), Option::Some(h)) => Some((w, h)),
            _ => None,
        }
    }
}

/// The negotiated stream address from a GetStreamUri response.
#[derive(Clone, Debug)]
pub struct StreamUri {
    pub uri: Option<Vec<u8>>,
    pub timeout: Option<Vec<u8>>,
    pub invalid_connect: Option<Vec<u8>>,
}

impl Default for StreamUri {
    /// No stream negotiated yet.
    fn default() -> (d: StreamUri)
        ensures
            d == (StreamUri { uri: None, timeout: None, invalid_connect: None }),
    {
        StreamUri { uri: None, timeout: None, invalid_connect: None }
    }
}

/// Service endpoint URLs classified out of a GetServices response.
#[derive(Clone, Debug)]
pub struct Services {
    pub analytics: Option<Vec<u8>>,
    pub event: Option<Vec<u8>>,
    pub io: Option<Vec<u8>>,
    pub imaging: Option<Vec<u8>>,
    pub media: Option<Vec<u8>>,
    pub media2: Option<Vec<u8>>,
    pub ptz: Option<Vec<u8>>,
}

impl Default for Services {
    /// No services classified yet.
    fn default() -> (d: Services)
        ensures
            d == (Services {
                analytics: None,
                event: None,
                io: None,
                imaging: None,
                media: None,
                media2: None,
                ptz: None,
            }),
    {
        Services {
            analytics: None,
            event: None,
            io: None,
            imaging: None,
            media: None,
            media2: None,
            ptz: None,
        }
    }
}

/// One analytics configuration of a device.
#[derive(Clone, Debug)]
pub struct AnalyticsConfig {
    pub token: Option<Vec<u8>>,
    pub name: Option<Vec<u8>>,
    pub use_count: Option<u8>,
}

impl Default for AnalyticsConfig {
    /// An empty configuration.
    fn default() -> (d: AnalyticsConfig)
        ensures
            d == (AnalyticsConfig { token: None, name: None, use_count: None }),
    {
        AnalyticsConfig { token: None, name: None, use_count: None }
    }
}

/// The analytics configurations of a device.
#[derive(Clone, Debug)]
pub struct AnalyticsConfigList {
    pub configs: Vec<AnalyticsConfig>,
}

impl Default for AnalyticsConfigList {
    /// No configurations.
    fn default() -> (d: AnalyticsConfigList)
        ensures
            d.configs@.len() == 0,
    {
        AnalyticsConfigList { configs: Vec::new() }
    }
}

/// A capability record that fills itself from `key=value` attribute pairs.
/// Each implementation says in `prop_applied` exactly how one pair changes
/// the record.
pub trait ServiceCapabilities: Sized {
    /// The transition one `key=value` pair makes on the record.
    spec fn prop_applied(self, prior: Self, key: Seq<u8>, value: Seq<u8>) -> bool;

    /// Apply one `key=value` pair; unknown keys leave the record unchanged.
    fn set_prop_with_pair(&mut self, pair: (&[u8], &[u8]))
        ensures
            final(self).prop_applied(*old(self), pair.0@, pair.1@),
    ;
}

/// Event service capabilities from a GetServiceCapabilities response.
#[derive(Clone, Debug)]
pub struct EventCapabilities {
    pub pause_support: Option<bool>,
    pub pull_point_support: Option<bool>,
    pub sub_policy_support: Option<bool>,
    pub max_notif_produce: Option<u8>,
    pub max_pull_points: Option<u8>,
    pub persist_notif_store: Option<bool>,
}

impl Default for EventCapabilities {
    /// Nothing learned yet.
    fn default() -> (d: EventCapabilities)
        ensures
            d == (EventCapabilities {
                pause_support: None,
                pull_point_support: None,
                sub_policy_support: None,
                max_notif_produce: None,
                max_pull_points: None,
                persist_notif_store: None,
            }),
    {
        EventCapabilities {
            pause_support: None,
            pull_point_support: None,
            sub_policy_support: None,
            max_notif_produce: None,
            max_pull_points: None,
            persist_notif_store: None,
        }
    }
}

/// A small number parsed from an attribute value, absent when the text is
/// not a number that fits.
pub open spec fn spec_parse_u8(v: Seq<u8>) -> Option<u8> {
    if all_digits(v) && spec_digits_value(v) <= u8::MAX {
        Some(spec_digits_value(v) as u8)
    } else {
        None
    }
}

impl ServiceCapabilities for EventCapabilities {
    /// The first matching keyword in the key decides which field the value
    /// lands in; unknown keys change nothing.
    open spec fn prop_applied(self, prior: Self, key: Seq<u8>, value: Seq<u8>) -> bool {
        if spec_contains(key, "PausableSubscription".spec_bytes()) {
            self == (EventCapabilities { pause_support: spec_parse_bool(value), ..prior })
        } else if spec_contains(key, "PullPointSupport".spec_bytes()) {
            self == (EventCapabilities { pull_point_support: spec_parse_bool(value), ..prior })
        } else if spec_contains(key, "PolicySupport".spec_bytes()) {
            self == (EventCapabilities { sub_policy_support: spec_parse_bool(value), ..prior })
        } else if spec_contains(key, "MaxNotification".spec_bytes()) {
            self == (EventCapabilities { max_notif_produce: spec_parse_u8(value), ..prior })
        } else if spec_contains(key, "MaxPullPoints".spec_bytes()) {
            self == (EventCapabilities { max_pull_points: spec_parse_u8(value), ..prior })
        } else if spec_contains(key, "NotificationStorage".spec_bytes()) {
            self == (EventCapabilities { persist_notif_store: spec_parse_bool(value), ..prior })
        } else {
            self == prior
        }
    }

    fn set_prop_with_pair(&mut self, pair: (&[u8], &[u8])) {
        let (key, value) = pair;
        if contains_sub(key, "PausableSubscription".as_bytes()) {
            self.pause_support = parse_bool(value);
        } else if contains_sub(key, "PullPointSupport".as_bytes()) {
            self.pull_point_support = parse_bool(value);
        } else if contains_sub(key, "PolicySupport".as_bytes()) {
            self.sub_policy_support = parse_bool(value);
        } else if contains_sub(key, "MaxNotification".as_bytes()) {
            self.max_notif_produce = parse_u8_num(value);
        } else if contains_sub(key, "MaxPullPoints".as_bytes()) {
            self.max_pull_points = parse_u8_num(value);
        } else if contains_sub(key, "NotificationStorage".as_bytes()) {
            self.persist_notif_store = parse_bool(value);
        }
    }
}

/// Analytics service capabilities from a GetServiceCapabilities response.
#[derive(Clone, Debug)]
pub struct AnalyticsCapabilities {
    pub rule_support: Option<bool>,
    pub analytics_module: Option<bool>,
    pub cell_based_scene: Option<bool>,
    pub rule_options: Option<bool>,
    pub analytics_module_options: Option<bool>,
    pub supported_metadata: Option<bool>,
    pub image_sending_type: Option<Vec<u8>>,
}

impl Default for AnalyticsCapabilities {
    /// Nothing learned yet.
    fn default() -> (d: AnalyticsCapabilities)
        ensures
            d == (AnalyticsCapabilities {
                rule_support: None,
                analytics_module: None,
                cell_based_scene: None,
                rule_options: None,
                analytics_module_options: None,
                supported_metadata: None,
                image_sending_type: None,
            }),
    {
        AnalyticsCapabilities {
            rule_support: None,
            analytics_module: None,
            cell_based_scene: None,
            rule_options: None,
            analytics_module_options: None,
            supported_metadata: None,
            image_sending_type: None,
        }
    }
}

impl ServiceCapabilities for AnalyticsCapabilities {
    /// The first matching keyword in the key decides which field the value
    /// lands in; unknown keys change nothing.
    open spec fn prop_applied(self, prior: Self, key: Seq<u8>, value: Seq<u8>) -> bool {
        if spec_contains(key, "RuleSupport".spec_bytes()) {
            self == (AnalyticsCapabilities { rule_support: spec_parse_bool(value), ..prior })
        } else if spec_contains(key, "AnalyticsModuleSupport".spec_bytes()) {
            self == (AnalyticsCapabilities { analytics_module: spec_parse_bool(value), ..prior })
        } else if spec_contains(key, "CellBasedSceneDescriptionSupported".spec_bytes()) {
            self == (AnalyticsCapabilities { cell_based_scene: spec_parse_bool(value), ..prior })
        } else if spec_contains(key, "RuleOptionsSupported".spec_bytes()) {
            self == (AnalyticsCapabilities { rule_options: spec_parse_bool(value), ..prior })
        } else if spec_contains(key, "AnalyticsModuleOptionsSupported".spec_bytes()) {
            self == (AnalyticsCapabilities {
                analytics_module_options: spec_parse_bool(value),
                ..prior
            })
        } else if spec_contains(key, "SupportedMetadata".spec_bytes()) {
            self == (AnalyticsCapabilities { supported_metadata: spec_parse_bool(value), ..prior })
        } else if spec_contains(key, "ImageSendingType".spec_bytes()) {
            &&& self.image_sending_type matches Some(v) && v@ == value
            &&& self.rule_support == prior.rule_support
            &&& self.analytics_module == prior.analytics_module
            &&& self.cell_based_scene == prior.cell_based_scene
            &&& self.rule_options == prior.rule_options
            &&& self.analytics_module_options == prior.analytics_module_options
            &&& self.supported_metadata == prior.supported_metadata
        } else {
            self == prior
        }
    }

    fn set_prop_with_pair(&mut self, pair: (&[u8], &[u8])) {
        let (key, value) = pair;
        if contains_sub(key, "RuleSupport".as_bytes()) {
            self.rule_support = parse_bool(value);
        } else if contains_sub(key, "AnalyticsModuleSupport".as_bytes()) {
            self.analytics_module = parse_bool(value);
        } else if contains_sub(key, "CellBasedSceneDescriptionSupported".as_bytes()) {
            self.cell_based_scene = parse_bool(value);
        } else if contains_sub(key, "RuleOptionsSupported".as_bytes()) {
            self.rule_options = parse_bool(value);
        } else if contains_sub(key, "AnalyticsModuleOptionsSupported".as_bytes()) {
            self.analytics_module_options = parse_bool(value);
        } else if contains_sub(key, "SupportedMetadata".as_bytes()) {
            self.supported_metadata = parse_bool(value);
        } else if contains_sub(key, "ImageSendingType".as_bytes()) {
            let copied = crate::text::sub_to_vec(value, 0, value.len());
            proof {
                assert(copied@ =~= value@);
            }
            self.image_sending_type = Some(copied);
        }
    }
}

} // verus!
