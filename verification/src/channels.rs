//! Virtual channels: the names of the dynamic channels the client knows and
//! declines, and the clipboard channel ([`cliprdr`]).
use vstd::prelude::*;
use vstd::string::StringSliceAdditionalSpecFns;

pub mod cliprdr;

verus! {

/// The RDPGFX graphics pipeline endpoint (MS-RDPEGFX).
pub const GRAPHICS: &'static str = "Microsoft::Windows::RDS::Graphics";
/// The microphone (audio input) endpoint (MS-RDPEAI).
pub const AUDIO_INPUT: &'static str = "AUDIO_INPUT";
/// The speaker (audio output) endpoint (MS-RDPEA) over a dynamic channel.
pub const AUDIO_PLAYBACK: &'static str = "AUDIO_PLAYBACK_DVC";
/// The unreliable variant of the speaker endpoint.
pub const AUDIO_PLAYBACK_LOSSY: &'static str = "AUDIO_PLAYBACK_LOSSY_DVC";
/// The camera enumerator endpoint (MS-RDPECAM).
pub const CAMERA_ENUMERATOR: &'static str = "RDCamera_Device_Enumerator";
/// Prefix of the per-device camera channels the client names.
pub const CAMERA_DEVICE_PREFIX: &'static str = "rdpio_cam";
/// The multi-touch and pen input endpoint (MS-RDPEI).
pub const RDPINPUT: &'static str = "Microsoft::Windows::RDS::Input";

/// MS-RDPEVOR "video optimized remoting" control channel.
pub const VIDEO_CONTROL_PREFIX: &'static str = "Microsoft::Windows::RDS::Video::Control";
/// MS-RDPEVOR video sample stream.
pub const VIDEO_DATA_PREFIX: &'static str = "Microsoft::Windows::RDS::Video::Data";
/// MS-RDPEGT geometry-tracking channel.
pub const GEOMETRY_PREFIX: &'static str = "Microsoft::Windows::RDS::Geometry";
/// Teams "optimized" WebRTC media redirector.
pub const WEBRTC_REDIRECTOR_PREFIX: &'static str = "com.microsoft.rdc.dvc.webrtc";
/// Multimedia redirection.
pub const MMR_REDIRECTOR_PREFIX: &'static str = "com.microsoft.rdc.dvc.mmr";

/// Whether the bytes of `p` begin the bytes of `s`.
pub open spec fn has_prefix(s: Seq<u8>, p: Seq<u8>) -> bool {
    p.len() <= s.len() && s.take(p.len() as int) == p
}

/// Byte-wise prefix test.
pub fn str_starts_with(s: &str, p: &str) -> (r: bool)
    ensures
        r == has_prefix(s.spec_bytes(), p.spec_bytes()),
{
    let sb = s.as_bytes();
    let pb = p.as_bytes();
    if pb.len() > sb.len() {
        return false;
    }
    let mut i: usize = 0;
    while i < pb.len()
        invariant
            pb@ == p.spec_bytes(),
            sb@ == s.spec_bytes(),
            pb@.len() <= sb@.len(),
            i <= pb@.len(),
            forall|k: int| 0 <= k < i ==> sb@[k] == pb@[k],
        decreases pb@.len() - i,
    {
        if sb[i] != pb[i] {
            return false;
        }
        i = i + 1;
    }
    assert(sb@.take(pb@.len() as int) =~= pb@);
    true
}

/// True if `name` is a server-side media/video redirection channel that the
/// client declines, so that video stays in the graphics pipeline it decodes.
pub fn is_redirection_channel(name: &str) -> (r: bool)
    ensures
        r == (has_prefix(name.spec_bytes(), VIDEO_CONTROL_PREFIX.spec_bytes())
            || has_prefix(name.spec_bytes(), VIDEO_DATA_PREFIX.spec_bytes())
            || has_prefix(name.spec_bytes(), GEOMETRY_PREFIX.spec_bytes())
            || has_prefix(name.spec_bytes(), WEBRTC_REDIRECTOR_PREFIX.spec_bytes())
            || has_prefix(name.spec_bytes(), MMR_REDIRECTOR_PREFIX.spec_bytes())),
{
    str_starts_with(name, VIDEO_CONTROL_PREFIX) || str_starts_with(name, VIDEO_DATA_PREFIX)
        || str_starts_with(name, GEOMETRY_PREFIX) || str_starts_with(name, WEBRTC_REDIRECTOR_PREFIX)
        || str_starts_with(name, MMR_REDIRECTOR_PREFIX)
}

} // verus!
