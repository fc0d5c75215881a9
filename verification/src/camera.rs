//! A camera under construction: a bare discovered device together with
//! the capability sub-records the builder pipeline fills in, and the
//! pipeline state machine that fixes the stage order.
//!
//! The pipeline is driven from outside: the application asks
//! `Pipeline::next_message` what to send and `Pipeline::request_url`
//! where, performs the HTTP exchange, and hands the response bytes to
//! `Pipeline::apply_response`.  A response missing fields degrades its
//! own sub-record and nothing else; later stages still run.

use vstd::prelude::*;
use vstd::string::StringSliceAdditionalSpecFns;

use crate::builder;
use crate::builder::caps_applied;
use crate::builder::caps_from;
use crate::builder::device_info_from;
use crate::builder::profiles_from;
use crate::builder::services_from;
use crate::builder::stream_uri_from;
use crate::builder::spec_capability_pairs;
use crate::client::Messages;
use crate::device::Capabilities;
use crate::device::Device;
use crate::device::DeviceInfo;
use crate::device::EventCapabilities;
use crate::device::Profiles;
use crate::device::Services;
use crate::device::StreamUri;
use crate::error::OnvifError;
use crate::text::append_bytes;

verus! {

/// A device and whatever capability records have been built for it.
pub struct Camera {
    pub base: Device,
    pub capabilities: Option<Capabilities>,
    pub device_info: Option<DeviceInfo>,
    pub profiles: Option<Profiles>,
    pub stream: Option<StreamUri>,
    pub services: Option<Services>,
    pub event_props: Option<EventCapabilities>,
}

impl Camera {
    /// Wrap a bare discovered device; every sub-record starts absent.
    pub fn new(base: Device) -> (c: Camera)
        ensures
            c.base == base,
            c.capabilities is None,
            c.device_info is None,
            c.profiles is None,
            c.stream is None,
            c.services is None,
            c.event_props is None,
    {
        Camera {
            base,
            capabilities: None,
            device_info: None,
            profiles: None,
            stream: None,
            services: None,
            event_props: None,
        }
    }

    /// A camera known only by its control URL, as when one is entered by
    /// hand instead of discovered: accepted exactly when the URL crate
    /// accepts the address, which is then stored normalized.
    pub fn from_url(url: &[u8]) -> (r: Option<Camera>)
        ensures
            match r {
                Option::Some(c) => {
                    &&& crate::client::url_parse_of(url@) == Some(c.base.url_onvif@)
                    &&& c.base.device_type == crate::device::DeviceTypes::Camera
                    &&& c.base.scopes@.len() == 0
                    &&& c.capabilities is None
                    &&& c.device_info is None
                    &&& c.profiles is None
                    &&& c.stream is None
                    &&& c.services is None
                    &&& c.event_props is None
                },
                Option::None => crate::client::url_parse_of(url@) is None,
            },
    {
        match crate::client::parse_url_bytes(url) {
            Option::Some(normalized) => Some(
                Camera::new(
                    Device {
                        url_onvif: normalized,
                        device_type: crate::device::DeviceTypes::Camera,
                        scopes: Vec::new(),
                    },
                ),
            ),
            Option::None => None,
        }
    }

    /// The negotiated stream URL, if the stream stage found one.
    pub open spec fn spec_rtsp(&self) -> Option<Seq<u8>> {
        match self.stream {
            Some(s) => match s.uri {
                Some(u) => Some(u@),
                None => None,
            },
            None => None,
        }
    }

    /// The event service URL, if the services stage classified one.
    pub open spec fn spec_event_url(&self) -> Option<Seq<u8>> {
        match self.services {
            Some(s) => match s.event {
                Some(u) => Some(u@),
                None => None,
            },
            None => None,
        }
    }

    /// The RTSP streaming URL of this camera, or `MissingField` while the
    /// stream stage has not succeeded: a degraded camera is told apart
    /// from a playable one here.
    pub fn get_stream_uri(&self) -> (r: Result<Vec<u8>, OnvifError>)
        ensures
            r matches Ok(v) ==> self.spec_rtsp() == Some(v@),
            r matches Err(e) ==> e is MissingField && self.spec_rtsp() is None,
    {
        match &self.stream {
            Option::Some(s) => match &s.uri {
                Option::Some(u) => {
                    let mut copy: Vec<u8> = Vec::new();
                    append_bytes(&mut copy, u.as_slice());
                    Ok(copy)
                },
                Option::None => Err(missing_stream_field()),
            },
            Option::None => Err(missing_stream_field()),
        }
    }

    /// Apply a GetCapabilities response.
    pub fn set_capabilities(&mut self, response: &[u8])
        ensures
            final(self).capabilities matches Some(c) && caps_from(response@, c),
            stage_frame(*old(self), *final(self), StageField::CapabilitiesField),
    {
        self.capabilities = Some(builder::set_capabilities(response));
    }

    /// Apply a GetDeviceInformation response.
    pub fn set_device_info(&mut self, response: &[u8])
        ensures
            final(self).device_info matches Some(d) && device_info_from(response@, d),
            stage_frame(*old(self), *final(self), StageField::DeviceInfoField),
    {
        self.device_info = Some(builder::set_device_info(response));
    }

    /// Apply a GetProfiles response.
    pub fn set_profiles(&mut self, response: &[u8])
        ensures
            final(self).profiles matches Some(p) && profiles_from(response@, p),
            stage_frame(*old(self), *final(self), StageField::ProfilesField),
    {
        self.profiles = Some(builder::set_profiles(response));
    }

    /// Apply a GetStreamUri response.
    pub fn set_stream_uri(&mut self, response: &[u8])
        ensures
            final(self).stream matches Some(s) && stream_uri_from(response@, s),
            stage_frame(*old(self), *final(self), StageField::StreamField),
    {
        self.stream = Some(builder::set_stream_uri(response));
    }

    /// Apply a GetServices response.
    pub fn set_services(&mut self, response: &[u8])
        ensures
            final(self).services matches Some(s) && services_from(response@, s),
            stage_frame(*old(self), *final(self), StageField::ServicesField),
    {
        self.services = Some(builder::set_services(response));
    }

    /// Apply a GetServiceCapabilities response from the event service.
    pub fn set_service_capabilities(&mut self, response: &[u8])
        ensures
            final(self).event_props matches Some(e) && caps_applied(
                (EventCapabilities {
                    pause_support: None,
                    pull_point_support: None,
                    sub_policy_support: None,
                    max_notif_produce: None,
                    max_pull_points: None,
                    persist_notif_store: None,
                }),
                e,
                spec_capability_pairs(response@),
            ),
            stage_frame(*old(self), *final(self), StageField::EventPropsField),
    {
        let init = EventCapabilities::default();
        self.event_props = Some(builder::set_service_capabilities(init, response));
    }
}

/// The sub-record one stage writes.
pub enum StageField {
    CapabilitiesField,
    DeviceInfoField,
    ProfilesField,
    StreamField,
    ServicesField,
    EventPropsField,
}

/// One stage writes its own sub-record and leaves the base device and all
/// other sub-records exactly as they were.
pub open spec fn stage_frame(pre: Camera, post: Camera, written: StageField) -> bool {
    &&& post.base == pre.base
    &&& (written is CapabilitiesField || post.capabilities == pre.capabilities)
    &&& (written is DeviceInfoField || post.device_info == pre.device_info)
    &&& (written is ProfilesField || post.profiles == pre.profiles)
    &&& (written is StreamField || post.stream == pre.stream)
    &&& (written is ServicesField || post.services == pre.services)
    &&& (written is EventPropsField || post.event_props == pre.event_props)
}

/// The `MissingField` error for an absent stream URL.
fn missing_stream_field() -> (e: OnvifError)
    ensures
        e is MissingField,
{
    let mut name: Vec<u8> = Vec::new();
    append_bytes(&mut name, "Uri".as_bytes());
    OnvifError::MissingField { field: name }
}

/// The message each pipeline position sends, independent of the device.
pub open spec fn spec_stage_message(pos: u32) -> Option<Messages> {
    if pos == 0 {
        Some(Messages::Capabilities)
    } else if pos == 1 {
        Some(Messages::DeviceInfo)
    } else if pos == 2 {
        Some(Messages::Profiles)
    } else if pos == 3 {
        Some(Messages::GetStreamURI)
    } else if pos == 4 {
        Some(Messages::GetServices)
    } else if pos == 5 {
        Some(Messages::GetServiceCapabilities)
    } else {
        None
    }
}

/// The fixed build order, one position per stage.  Positions 0 to 4 run
/// against the device's control URL whatever earlier stages found; the
/// optional final stage runs only when the services stage classified an
/// event service URL, and runs against that URL.
pub struct Pipeline {
    pub pos: u32,
}

impl Pipeline {
    /// A pipeline before its first stage.
    pub fn new() -> (p: Pipeline)
        ensures
            p.pos == 0,
    {
        Pipeline { pos: 0 }
    }

    /// The next request to send, or `None` when the pipeline is done.
    /// The event-capabilities stage is skipped when no event service URL
    /// is in hand.
    pub fn next_message(&self, cam: &Camera) -> (r: Option<Messages>)
        ensures
            r == if self.pos == 5 && cam.spec_event_url() is None {
                Option::<Messages>::None
            } else {
                spec_stage_message(self.pos)
            },
    {
        if self.pos == 0 {
            Some(Messages::Capabilities)
        } else if self.pos == 1 {
            Some(Messages::DeviceInfo)
        } else if self.pos == 2 {
            Some(Messages::Profiles)
        } else if self.pos == 3 {
            Some(Messages::GetStreamURI)
        } else if self.pos == 4 {
            Some(Messages::GetServices)
        } else if self.pos == 5 {
            match &cam.services {
                Option::Some(s) => match &s.event {
                    Option::Some(_) => Some(Messages::GetServiceCapabilities),
                    Option::None => None,
                },
                Option::None => None,
            }
        } else {
            None
        }
    }

    /// Where the next request goes: the control URL for the fixed stages,
    /// the classified event service URL for the final one.
    pub fn request_url(&self, cam: &Camera) -> (r: Option<Vec<u8>>)
        ensures
            self.pos <= 4 ==> (r matches Some(u) && u@ == cam.base.url_onvif@),
            self.pos == 5 ==> r.deep_view() == cam.spec_event_url(),
            self.pos > 5 ==> r is None,
    {
        if self.pos <= 4 {
            let mut copy: Vec<u8> = Vec::new();
            append_bytes(&mut copy, cam.base.url_onvif.as_slice());
            Some(copy)
        } else if self.pos == 5 {
            match &cam.services {
                Option::Some(s) => match &s.event {
                    Option::Some(u) => {
                        let mut copy: Vec<u8> = Vec::new();
                        append_bytes(&mut copy, u.as_slice());
                        Some(copy)
                    },
                    Option::None => None,
                },
                Option::None => None,
            }
        } else {
            None
        }
    }

    /// Feed the response of the current stage into the camera and move to
    /// the next stage.  A degraded response still advances the pipeline:
    /// later stages are never blocked by an earlier parse.
    pub fn apply_response(&mut self, cam: &mut Camera, response: &[u8])
        requires
            old(self).pos <= 5,
        ensures
            final(self).pos == old(self).pos + 1,
            old(self).pos == 0 ==> (final(cam).capabilities matches Some(c) && caps_from(
                response@,
                c,
            ) && stage_frame(*old(cam), *final(cam), StageField::CapabilitiesField)),
            old(self).pos == 1 ==> (final(cam).device_info matches Some(d) && device_info_from(
                response@,
                d,
            ) && stage_frame(*old(cam), *final(cam), StageField::DeviceInfoField)),
            old(self).pos == 2 ==> (final(cam).profiles matches Some(p) && profiles_from(
                response@,
                p,
            ) && stage_frame(*old(cam), *final(cam), StageField::ProfilesField)),
            old(self).pos == 3 ==> (final(cam).stream matches Some(s) && stream_uri_from(
                response@,
                s,
            ) && stage_frame(*old(cam), *final(cam), StageField::StreamField)),
            old(self).pos == 4 ==> (final(cam).services matches Some(s) && services_from(
                response@,
                s,
            ) && stage_frame(*old(cam), *final(cam), StageField::ServicesField)),
            old(self).pos == 5 ==> (final(cam).event_props is Some && stage_frame(
                *old(cam),
                *final(cam),
                StageField::EventPropsField,
            )),
    {
        if self.pos == 0 {
            cam.set_capabilities(response);
        } else if self.pos == 1 {
            cam.set_device_info(response);
        } else if self.pos == 2 {
            cam.set_profiles(response);
        } else if self.pos == 3 {
            cam.set_stream_uri(response);
        } else if self.pos == 4 {
            cam.set_services(response);
        } else {
            cam.set_service_capabilities(response);
        }
        self.pos = self.pos + 1;
    }
}

} // verus!
