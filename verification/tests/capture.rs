//! Screens and captured pictures.

use rottingapple::capture::dxgi::{
    captured_display, enumerate_outputs, find_output, is_dxgi_wait_timeout, output_device_name,
    AdapterDesc, FrameCache, OutputDesc,
};
use rottingapple::capture::frame::{
    bgra_to_rgba, bgrx_to_rgba, blank_frame, copy_frame, CaptureFrame, DisplayInfo,
};
use rottingapple::capture::linux::{
    active_crtc, enumerate_randr_displays, find_display, monitor_region_for_display,
    output_of_display, CrtcInfo, OutputInfo, ScreenInfo,
};
use rottingapple::capture::virtual_display::{
    filter_virtual_displays, is_virtual_display_name, is_virtual_lowercase, select_virtual_display,
};
use rottingapple::error::RottenError;

#[test]
fn detects_common_virtual_names() {
    assert!(is_virtual_display_name("IDD HDR Virtual Display"));
    assert!(is_virtual_display_name("Parsec Virtual Display"));
    assert!(!is_virtual_display_name("Generic PnP Monitor"));
}

#[test]
fn select_prefers_matching_index() {
    let displays = vec![
        DisplayInfo {
            index: 0,
            name: "primary".into(),
            width: 1920,
            height: 1080,
            is_virtual: false,
        },
        DisplayInfo {
            index: 1,
            name: "virtual".into(),
            width: 1280,
            height: 720,
            is_virtual: true,
        },
    ];
    assert_eq!(select_virtual_display(&displays, Some(1)), Some(1));
    assert_eq!(select_virtual_display(&displays, None), Some(1));
    assert_eq!(select_virtual_display(&displays, Some(0)), Some(1));
}

#[test]
fn every_virtual_word_counts() {
    for word in [
        "virtual", "indirect", "idd", "parsec", "spacedesk", "dummy", "vdd", "displaylink", "evdi",
        "sunshine", "moonlight",
    ] {
        assert!(is_virtual_lowercase(&format!("a {word} b")));
        assert!(is_virtual_display_name(&word.to_uppercase()));
    }
    assert!(!is_virtual_lowercase("VIRTUAL"));
    assert!(!is_virtual_display_name("HDMI-1"));
}

fn display(index: u32, is_virtual: bool) -> DisplayInfo {
    DisplayInfo { index, name: format!("d{index}"), width: 100, height: 50, is_virtual }
}

#[test]
fn selects_among_several_virtual_screens() {
    let ds = [display(0, false), display(3, true), display(7, true)];
    let virtuals: Vec<u32> = filter_virtual_displays(&ds).iter().map(|d| d.index).collect();
    assert_eq!(virtuals, vec![3, 7]);
    assert_eq!(select_virtual_display(&ds, Some(7)), Some(7));
    assert_eq!(select_virtual_display(&ds, Some(9)), Some(3));
    assert_eq!(select_virtual_display(&[display(0, false)], Some(0)), None);
}

fn screen() -> ScreenInfo {
    ScreenInfo { number: 2, root: 77, root_depth: 24, width: 4000, height: 3000 }
}

#[test]
fn randr_lists_active_outputs() {
    let crtcs = [
        CrtcInfo { id: 5, x: 0, y: 0, width: 1920, height: 1080 },
        CrtcInfo { id: 6, x: 1920, y: -3, width: 1280, height: 720 },
    ];
    let outputs = [
        OutputInfo { crtc: 5, name: b"HDMI-1".to_vec() },
        OutputInfo { crtc: 0, name: b"DP-1".to_vec() },
        OutputInfo { crtc: 6, name: b"VIRTUAL1".to_vec() },
        OutputInfo { crtc: 9, name: vec![b'A', 0xff] },
    ];
    let ds = enumerate_randr_displays(&outputs, &crtcs, screen());
    assert_eq!(ds.len(), 3);
    assert_eq!((ds[0].index, ds[0].width, ds[0].height), (0, 1920, 1080));
    assert_eq!(ds[0].name, "HDMI-1");
    assert!(!ds[0].is_virtual);
    assert_eq!((ds[1].index, ds[1].width, ds[1].height), (2, 1280, 720));
    assert!(ds[1].is_virtual);
    assert_eq!((ds[2].index, ds[2].width, ds[2].height), (3, 4000, 3000));
    assert_eq!(ds[2].name, "A\u{fffd}");

    assert_eq!(find_display(&ds, None).unwrap(), 0);
    assert_eq!(find_display(&ds, Some(2)).unwrap(), 1);
    assert_eq!(
        find_display(&ds, Some(1)).unwrap_err().message(),
        "capture error: display index 1 not found (3 outputs total)"
    );

    let r = monitor_region_for_display(screen(), crtcs[1], &ds[1]);
    assert_eq!((r.root, r.x, r.y, r.width, r.height, r.depth), (77, 1920, -3, 1280, 720, 24));
    let own = r.displays();
    assert_eq!(own.len(), 1);
    assert_eq!((own[0].index, own[0].width, own[0].is_virtual), (2, 1280, true));
    assert_eq!(own[0].name, "VIRTUAL1");
}

#[test]
fn randr_without_active_outputs_shows_the_root() {
    let ds = enumerate_randr_displays(&[], &[], screen());
    assert_eq!(ds.len(), 1);
    assert_eq!(ds[0].name, "X11 display 2");
    assert_eq!((ds[0].index, ds[0].width, ds[0].height), (0, 4000, 3000));
}

#[test]
fn outputs_of_screens() {
    assert_eq!(output_of_display(&[10, 11], &display(1, false)).unwrap(), 11);
    assert_eq!(
        output_of_display(&[10, 11], &display(2, false)).unwrap_err().message(),
        "capture error: output index 2 missing"
    );
    assert_eq!(active_crtc(4, &display(1, false)).unwrap(), 4);
    assert_eq!(
        active_crtc(0, &display(1, false)).unwrap_err().message(),
        "capture error: output d1 is not active"
    );
}

#[test]
fn pixels_change_order() {
    assert_eq!(bgrx_to_rgba(&[1, 2, 3, 4, 5, 6, 7, 8], 2, 1), vec![3, 2, 1, 255, 7, 6, 5, 255]);
    assert_eq!(bgrx_to_rgba(&[1, 2, 3, 4, 5], 2, 1), vec![3, 2, 1, 255, 0, 0, 0, 0]);
    let rows = [1, 2, 3, 4, 99, 99, 5, 6, 7, 8];
    assert_eq!(bgra_to_rgba(&rows, 6, 1, 2), vec![3, 2, 1, 255, 7, 6, 5, 255]);
    assert_eq!(bgra_to_rgba(&rows, 6, 2, 1), vec![3, 2, 1, 255, 5, 99, 99, 255]);
}

fn units(s: &str) -> Vec<u16> {
    let mut v: Vec<u16> = s.encode_utf16().collect();
    v.push(0);
    v.push(65);
    v
}

fn adapters() -> Vec<AdapterDesc> {
    let out = |name: &str, left: i32, right: i32| OutputDesc {
        device_name: units(name),
        left,
        top: -10,
        right,
        bottom: 1070,
    };
    vec![
        AdapterDesc {
            description: units("GPU"),
            outputs: vec![out("\\\\.\\DISPLAY1", 0, 1920), out("", 1920, 3200)],
        },
        AdapterDesc { description: units("Parsec Virtual"), outputs: vec![out("D\u{e9}", -5, 5)] },
    ]
}

#[test]
fn names_end_at_zero() {
    assert_eq!(output_device_name(&units("\\\\.\\DISPLAY1")), "\\\\.\\DISPLAY1");
    assert_eq!(output_device_name(&[0xd800, 65]), "\u{fffd}A");
    assert_eq!(output_device_name(&[]), "");
}

#[test]
fn outputs_are_numbered_over_adapters() {
    let a = adapters();
    let ds = enumerate_outputs(&a);
    assert_eq!(ds.len(), 3);
    assert_eq!(ds[0].name, "\\\\.\\DISPLAY1");
    assert_eq!((ds[0].index, ds[0].width, ds[0].height, ds[0].is_virtual), (0, 1920, 1080, false));
    assert_eq!(ds[1].name, "GPU #1");
    assert_eq!((ds[1].index, ds[1].width), (1, 1280));
    assert_eq!(ds[2].name, "D\u{e9}");
    assert_eq!((ds[2].index, ds[2].width, ds[2].is_virtual), (2, 10, true));
    assert_eq!(find_output(&a, 0).unwrap(), (0, 0));
    assert_eq!(find_output(&a, 1).unwrap(), (0, 1));
    assert_eq!(find_output(&a, 2).unwrap(), (1, 0));
    assert_eq!(
        find_output(&a, 3).unwrap_err().message(),
        "capture error: display index 3 not found (3 outputs total)"
    );
}

#[test]
fn at_most_sixteen_outputs_of_an_adapter() {
    let mut a = adapters();
    let o = a[0].outputs[0].clone();
    a[0].outputs = vec![o; 20];
    let ds = enumerate_outputs(&a);
    assert_eq!(ds.len(), 17);
    assert_eq!(find_output(&a, 16).unwrap(), (1, 0));
}

#[test]
fn last_picture_is_shown_on_timeout() {
    let timeout = || RottenError::Capture("AcquireNextFrame: DXGI_ERROR_WAIT_TIMEOUT (x)".into());
    assert!(is_dxgi_wait_timeout(&timeout()));
    assert!(is_dxgi_wait_timeout(&RottenError::Capture("0x887A0027".into())));
    assert!(!is_dxgi_wait_timeout(&RottenError::Capture("lost".into())));
    assert!(!is_dxgi_wait_timeout(&RottenError::Video("0x887A0027".into())));

    let mut cache = FrameCache::new(2, 1);
    let blank = cache.grab_frame(Err(timeout())).unwrap();
    assert_eq!((blank.rgba, blank.width, blank.height), (vec![0; 8], 2, 1));
    let f = CaptureFrame { rgba: vec![1, 2, 3, 4], width: 1, height: 1 };
    let shown = cache.grab_frame(Ok(f)).unwrap();
    assert_eq!(shown.rgba, vec![1, 2, 3, 4]);
    let again = cache.grab_frame(Err(timeout())).unwrap();
    assert_eq!((again.rgba, again.width, again.height), (vec![1, 2, 3, 4], 1, 1));
    let e = cache.grab_frame(Err(RottenError::Capture("lost".into()))).unwrap_err();
    assert_eq!(e.message(), "capture error: lost");
}

#[test]
fn blank_and_copied_pictures() {
    let b = blank_frame(3, 2);
    assert_eq!((b.rgba.len(), b.width, b.height), (24, 3, 2));
    let c = copy_frame(&b);
    assert_eq!(c.rgba, b.rgba);
}

#[test]
fn captured_screen_is_virtual_by_either_name() {
    let d = captured_display(4, "\\\\.\\DISPLAY4", "Indirect adapter", 800, 600);
    assert_eq!((d.index, d.width, d.height, d.is_virtual), (4, 800, 600, true));
    assert!(!captured_display(4, "x", "y", 1, 1).is_virtual);
}
