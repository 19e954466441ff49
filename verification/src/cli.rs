//! Commands and what they print.

use crate::config::{self, HwAccel, MirrorCipherMode, MirrorConfig, StreamConfig};
use crate::device::{AirPlayDevice, DeviceView};
use crate::error::{ErrorView, RottenError};
use crate::pairing::credentials;
use crate::text;
use vstd::prelude::*;
use vstd::string::*;

verus! {

/// A command line.
#[derive(Debug, Clone)]
pub struct Cli {
    pub command: Commands,
}

/// What the program is asked to do.
#[derive(Debug, Clone)]
pub enum Commands {
    /// Say that the program starts.
    Probe,
    /// Look for receivers.
    Discover { timeout: u64 },
    /// Pair with a receiver.
    Pair {
        target: String,
        pin: Option<String>,
        port: u16,
        force: bool,
        creds: Option<String>,
    },
    /// Mirror the screen to a receiver.
    Mirror(MirrorArgs),
}

/// Arguments of the mirror command.
#[derive(Debug, Clone)]
pub struct MirrorArgs {
    pub target: Option<String>,
    pub pin: Option<String>,
    pub port: u16,
    pub width: u32,
    pub height: u32,
    pub fps: u32,
    pub bitrate: u32,
    pub hwaccel: String,
    pub test: bool,
    pub audio: bool,
    pub pair: bool,
    pub virtual_display: bool,
    pub display: Option<u32>,
    pub creds: Option<String>,
    pub debug: bool,
    pub no_encrypt: bool,
    pub cipher: CipherArg,
}

/// The cipher that is asked for.
#[derive(Debug, Clone, Copy, PartialEq, Eq, Structural)]
pub enum CipherArg {
    Aes,
    ChaCha,
}

impl Default for CipherArg {
    fn default() -> (r: Self)
        ensures
            r == CipherArg::ChaCha,
    {
        CipherArg::ChaCha
    }
}

impl From<CipherArg> for MirrorCipherMode {
    fn from(v: CipherArg) -> (r: Self) {
        match v {
            CipherArg::Aes => MirrorCipherMode::AesCtr,
            CipherArg::ChaCha => MirrorCipherMode::ChaCha,
        }
    }
}

impl vstd::std_specs::convert::FromSpecImpl<CipherArg> for MirrorCipherMode {
    open spec fn obeys_from_spec() -> bool {
        true
    }

    open spec fn from_spec(v: CipherArg) -> Self {
        match v {
            CipherArg::Aes => MirrorCipherMode::AesCtr,
            CipherArg::ChaCha => MirrorCipherMode::ChaCha,
        }
    }
}

/// What the probe prints.
pub const PROBE_TEXT: &'static str = "rottingapple probe ok";

/// What a mirror command without a target says where no receiver is found.
pub const NO_DEVICE_TEXT: &'static str = "no AirPlay devices found; use --target";

/// The lines for one receiver.
pub open spec fn device_lines(d: DeviceView) -> Seq<char> {
    "  "@ + d.name + " — "@ + d.host + ":"@ + text::decimal(d.port as nat) + " ("@ + d.device_id
        + ")\n"@ + (match d.model {
        Some(m) => "    model: "@ + m + "\n"@,
        None => Seq::empty(),
    })
}

/// The lines for receivers.
pub open spec fn all_lines(devices: Seq<AirPlayDevice>) -> Seq<char>
    decreases devices.len(),
{
    if devices.len() == 0 {
        Seq::empty()
    } else {
        all_lines(devices.drop_last()) + device_lines(devices.last()@)
    }
}

/// What a scan prints.
pub open spec fn report(devices: Seq<AirPlayDevice>) -> Seq<char> {
    if devices.len() == 0 {
        "No AirPlay devices found.\n"@
    } else {
        "Found "@ + text::decimal(devices.len()) + " AirPlay device(s):\n\n"@ + all_lines(devices)
    }
}

fn push_device(out: &mut String, d: &AirPlayDevice)
    ensures
        final(out)@ == old(out)@ + device_lines(d@),
{
    let ghost start = out@;
    out.append("  ");
    out.append(d.name.as_str());
    out.append(" — ");
    out.append(d.host.as_str());
    out.append(":");
    text::push_decimal(out, d.port as u64);
    out.append(" (");
    out.append(d.device_id.as_str());
    out.append(")\n");
    match &d.model {
        Some(m) => {
            out.append("    model: ");
            out.append(m.as_str());
            out.append("\n");
        },
        None => {},
    }
    assert(out@ =~= start + device_lines(d@));
}

/// What a scan prints.
pub fn discover_report(devices: &[AirPlayDevice]) -> (r: String)
    ensures
        r@ == report(devices@),
{
    if devices.len() == 0 {
        return text::owned("No AirPlay devices found.\n");
    }
    let mut out = text::numbered("Found ", devices.len() as u64);
    out.append(" AirPlay device(s):\n\n");
    let ghost head = out@;
    let mut i: usize = 0;
    assert(head + all_lines(devices@.take(0)) =~= head);
    while i < devices.len()
        invariant
            i <= devices@.len(),
            out@ == head + all_lines(devices@.take(i as int)),
        decreases devices.len() - i,
    {
        push_device(&mut out, &devices[i]);
        i += 1;
        proof {
            assert(devices@.take(i as int).drop_last() =~= devices@.take(i - 1));
            assert(out@ =~= head + all_lines(devices@.take(i as int)));
        }
    }
    assert(devices@.take(devices@.len() as int) =~= devices@);
    out
}

/// What pairing prints.
pub fn paired_report(device: &AirPlayDevice, stored_id: &str) -> (r: String)
    ensures
        r@ == "Paired with "@ + device.name@ + " ("@ + stored_id@ + ")"@,
{
    let mut out = text::owned("Paired with ");
    out.append(device.name.as_str());
    out.append(" (");
    out.append(stored_id);
    out.append(")");
    out
}

/// The digits of a PIN, where one is given, have to be four or six.
pub open spec fn pin_checked(
    pin: Option<Seq<char>>,
    r: Result<Option<String>, RottenError>,
) -> bool {
    match pin {
        None => r == Ok::<Option<String>, RottenError>(None),
        Some(p) => {
            let n = text::digits_of(p).len();
            match r {
                Ok(d) => (n == 4 || n == 6) && text::view_text(d) == Some(text::digits_of(p)),
                Err(e) => n != 4 && n != 6 && e@ == ErrorView::Pairing(
                    "PIN must be 4 or 6 digits, got "@ + text::decimal(n),
                ),
            }
        },
    }
}

/// Checks a PIN, where one is given.
pub fn check_pin(pin: &Option<String>) -> (r: Result<Option<String>, RottenError>)
    ensures
        pin_checked(text::view_text(*pin), r),
{
    match pin {
        None => Ok(None),
        Some(p) => match credentials::format_pin(p.as_str()) {
            Ok(d) => Ok(Some(d)),
            Err(e) => Err(e),
        },
    }
}

/// The receiver that is used without a target: the first that was found.
pub fn first_device(devices: Vec<AirPlayDevice>) -> (r: Option<AirPlayDevice>)
    ensures
        match r {
            Some(d) => devices@.len() > 0 && d == devices@[0],
            None => devices@.len() == 0,
        },
{
    let mut devices = devices;
    if devices.len() == 0 {
        None
    } else {
        Some(devices.remove(0))
    }
}

/// The configuration that the arguments give, apart from the PIN.
pub open spec fn configured(args: MirrorArgs, default_path: Seq<char>, c: MirrorConfig) -> bool {
    &&& c.stream == (StreamConfig {
        width: args.width,
        height: args.height,
        fps: args.fps,
        bitrate_kbps: args.bitrate,
    })
    &&& c.force_pair == args.pair
    &&& c.test_mode == args.test
    &&& c.audio == args.audio
    &&& c.hw_accel == config::hw_accel_named(config::lowercase(args.hwaccel@))
    &&& c.credentials_path@ == (match args.creds {
        Some(p) => p@,
        None => default_path,
    })
    &&& c.display_index == args.display
    &&& c.virtual_display_only == args.virtual_display
    &&& c.no_encrypt == args.no_encrypt
    &&& c.cipher == (match args.cipher {
        CipherArg::Aes => MirrorCipherMode::AesCtr,
        CipherArg::ChaCha => MirrorCipherMode::ChaCha,
    })
}

/// The configuration that the arguments of the mirror command give; it fails for a PIN that is
/// none.
pub fn mirror_config(args: &MirrorArgs, default_path: &str) -> (r: Result<MirrorConfig, RottenError>)
    ensures
        match r {
            Ok(c) => configured(*args, default_path@, c) && pin_checked(
                text::view_text(args.pin),
                Ok(c.pin),
            ),
            Err(e) => pin_checked(text::view_text(args.pin), Err(e)),
        },
{
    let pin = match check_pin(&args.pin) {
        Ok(p) => p,
        Err(e) => return Err(e),
    };
    let credentials_path = config::resolve_credentials_path(
        text::owned_opt(&args.creds),
        text::owned(default_path),
    );
    Ok(
        MirrorConfig {
            stream: StreamConfig {
                width: args.width,
                height: args.height,
                fps: args.fps,
                bitrate_kbps: args.bitrate,
            },
            pin,
            force_pair: args.pair,
            test_mode: args.test,
            audio: args.audio,
            hw_accel: HwAccel::from_str(args.hwaccel.as_str()),
            credentials_path,
            display_index: args.display,
            virtual_display_only: args.virtual_display,
            no_encrypt: args.no_encrypt,
            cipher: MirrorCipherMode::from(args.cipher),
        },
    )
}

/// Every receiver has its lines in the report, in order: its name, place and id, and its model
/// where it told one.
pub proof fn law_receivers_are_reported(devices: Seq<AirPlayDevice>, d: AirPlayDevice)
    ensures
        all_lines(Seq::empty()).len() == 0,
        all_lines(devices.push(d)) == all_lines(devices) + "  "@ + d.name@ + " — "@ + d.host@ + ":"@
            + text::decimal(d.port as nat) + " ("@ + d.device_id@ + ")\n"@ + (match d.model {
            Some(m) => "    model: "@ + m@ + "\n"@,
            None => Seq::empty(),
        }),
        report(devices.push(d)) == "Found "@ + text::decimal(devices.len() + 1)
            + " AirPlay device(s):\n\n"@ + all_lines(devices.push(d)),
{
    assert(devices.push(d).drop_last() =~= devices);
    let lines = "  "@ + d.name@ + " — "@ + d.host@ + ":"@ + text::decimal(d.port as nat) + " ("@
        + d.device_id@ + ")\n"@ + (match d.model {
        Some(m) => "    model: "@ + m@ + "\n"@,
        None => Seq::empty(),
    });
    assert(device_lines(d@) == lines);
    assert(all_lines(devices) + lines =~= all_lines(devices) + "  "@ + d.name@ + " — "@ + d.host@
        + ":"@ + text::decimal(d.port as nat) + " ("@ + d.device_id@ + ")\n"@ + (match d.model {
        Some(m) => "    model: "@ + m@ + "\n"@,
        None => Seq::empty(),
    }));
}

/// A PIN is taken with four or six digits, wherever they stand in it, and with no other number of
/// them.
pub proof fn law_pin_has_four_or_six_digits(
    pin: Seq<char>,
    r: Result<Option<String>, RottenError>,
)
    requires
        pin_checked(Some(pin), r),
    ensures
        r is Ok <==> text::digits_of(pin).len() == 4 || text::digits_of(pin).len() == 6,
        r matches Ok(d) ==> text::view_text(d) == Some(text::digits_of(pin)),
{
}
} // verus!
