//! Screens of an X11 server.

use crate::capture::frame::{self, DisplayInfo, DisplayView};
use crate::capture::virtual_display;
use crate::codec;
use crate::config;
use crate::error::{ErrorView, RottenError};
use crate::text;
use vstd::prelude::*;
use vstd::string::*;

verus! {

/// An output of the server, and the controller that drives it, zero for none.
#[derive(Debug, Clone)]
pub struct OutputInfo {
    pub crtc: u32,
    pub name: Vec<u8>,
}

/// The part of the root window that a controller shows.
#[derive(Debug, Clone, Copy, PartialEq, Eq, Structural)]
pub struct CrtcInfo {
    pub id: u32,
    pub x: i16,
    pub y: i16,
    pub width: u16,
    pub height: u16,
}

/// A screen of the server: the whole root window.
#[derive(Debug, Clone, Copy, PartialEq, Eq, Structural)]
pub struct ScreenInfo {
    pub number: usize,
    pub root: u32,
    pub root_depth: u8,
    pub width: u16,
    pub height: u16,
}

/// The last controller of the given number.
pub open spec fn crtc_of(crtcs: Seq<CrtcInfo>, id: u32) -> Option<CrtcInfo>
    decreases crtcs.len(),
{
    if crtcs.len() == 0 {
        None
    } else if crtcs.last().id == id {
        Some(crtcs.last())
    } else {
        crtc_of(crtcs.drop_last(), id)
    }
}

fn find_crtc(crtcs: &[CrtcInfo], id: u32) -> (r: Option<CrtcInfo>)
    ensures
        r == crtc_of(crtcs@, id),
{
    let mut n: usize = crtcs.len();
    assert(crtcs@.take(n as int) =~= crtcs@);
    while n > 0
        invariant
            n <= crtcs@.len(),
            crtc_of(crtcs@.take(n as int), id) == crtc_of(crtcs@, id),
        decreases n,
    {
        let c = crtcs[n - 1];
        assert(crtcs@.take(n as int).last() == c);
        assert(crtcs@.take(n as int).drop_last() =~= crtcs@.take(n - 1));
        if c.id == id {
            return Some(c);
        }
        n -= 1;
    }
    None
}

/// The screen that output number `i` shows; one whose controller is not known has the size of
/// the root window.
pub open spec fn output_display(
    i: int,
    output: OutputInfo,
    crtcs: Seq<CrtcInfo>,
    screen: ScreenInfo,
) -> DisplayView {
    let size = match crtc_of(crtcs, output.crtc) {
        Some(c) => (c.width as u32, c.height as u32),
        None => (screen.width as u32, screen.height as u32),
    };
    let name = codec::lossy_text(output.name@);
    DisplayView {
        index: (i % 0x1_0000_0000) as u32,
        name,
        width: size.0,
        height: size.1,
        is_virtual: virtual_display::virtual_name(config::lowercase(name)),
    }
}

/// The screens of the outputs that have a controller.
pub open spec fn active_displays(
    outputs: Seq<OutputInfo>,
    crtcs: Seq<CrtcInfo>,
    screen: ScreenInfo,
) -> Seq<DisplayView>
    decreases outputs.len(),
{
    if outputs.len() == 0 {
        Seq::empty()
    } else {
        let front = active_displays(outputs.drop_last(), crtcs, screen);
        if outputs.last().crtc == 0 {
            front
        } else {
            front.push(output_display(outputs.len() - 1, outputs.last(), crtcs, screen))
        }
    }
}

/// The screens of a server: without any active output the root window is the only one.
pub open spec fn randr_displays(
    outputs: Seq<OutputInfo>,
    crtcs: Seq<CrtcInfo>,
    screen: ScreenInfo,
) -> Seq<DisplayView> {
    let active = active_displays(outputs, crtcs, screen);
    if active.len() > 0 {
        active
    } else {
        seq![
            DisplayView {
                index: 0,
                name: "X11 display "@ + text::decimal(screen.number as nat),
                width: screen.width as u32,
                height: screen.height as u32,
                is_virtual: false,
            },
        ]
    }
}

/// Lists the screens of a server.
pub fn enumerate_randr_displays(outputs: &[OutputInfo], crtcs: &[CrtcInfo], screen: ScreenInfo) -> (r:
    Vec<DisplayInfo>)
    ensures
        frame::display_views(r@) == randr_displays(outputs@, crtcs@, screen),
{
    let mut displays: Vec<DisplayInfo> = Vec::new();
    let mut i: usize = 0;
    assert(frame::display_views(displays@) =~= active_displays(outputs@.take(0), crtcs@, screen));
    while i < outputs.len()
        invariant
            i <= outputs@.len(),
            frame::display_views(displays@) == active_displays(
                outputs@.take(i as int),
                crtcs@,
                screen,
            ),
        decreases outputs.len() - i,
    {
        let ghost before = frame::display_views(displays@);
        assert(outputs@.take(i + 1).drop_last() =~= outputs@.take(i as int));
        assert(outputs@.take(i + 1).last() == outputs@[i as int]);
        let crtc: u32 = outputs[i].crtc;
        if crtc != 0 {
            let name = codec::text_lossy(&outputs[i].name);
            let is_virtual = virtual_display::is_virtual_display_name(name.as_str());
            let (width, height) = match find_crtc(crtcs, crtc) {
                Some(c) => (c.width as u32, c.height as u32),
                None => (screen.width as u32, screen.height as u32),
            };
            let index: u32 = (i as u64 % 0x1_0000_0000) as u32;
            let info = DisplayInfo { index, name, width, height, is_virtual };
            assert(info@ == output_display(i as int, outputs@[i as int], crtcs@, screen));
            displays.push(info);
            assert(frame::display_views(displays@) =~= before.push(info@));
        }
        i += 1;
    }
    assert(outputs@.take(outputs@.len() as int) =~= outputs@);
    if displays.len() == 0 {
        let name = text::numbered("X11 display ", screen.number as u64);
        displays.push(
            DisplayInfo {
                index: 0,
                name,
                width: screen.width as u32,
                height: screen.height as u32,
                is_virtual: false,
            },
        );
        assert(frame::display_views(displays@) =~= randr_displays(outputs@, crtcs@, screen));
    }
    displays
}

/// Position of the first screen with the index; the number of screens where there is none.
pub open spec fn display_at(displays: Seq<DisplayView>, index: u32) -> int
    decreases displays.len(),
{
    if displays.len() == 0 || displays[0].index == index {
        0
    } else {
        1 + display_at(displays.skip(1), index)
    }
}

/// The position of the screen to capture: the first with the given index, or with index zero.
pub fn find_display(displays: &[DisplayInfo], display_index: Option<u32>) -> (r: Result<
    usize,
    RottenError,
>)
    ensures
        ({
            let idx: u32 = match display_index {
                Some(i) => i,
                None => 0,
            };
            let at = display_at(frame::display_views(displays@), idx);
            match r {
                Ok(i) => i == at && i < displays@.len() && displays@[i as int].index == idx,
                Err(e) => at == displays@.len() && e@ == ErrorView::Capture(
                    "display index "@ + text::decimal(idx as nat) + " not found ("@ + text::decimal(
                        displays@.len(),
                    ) + " outputs total)"@,
                ),
            }
        }),
{
    let idx: u32 = match display_index {
        Some(i) => i,
        None => 0,
    };
    let ghost all = frame::display_views(displays@);
    let mut i: usize = 0;
    assert(all.skip(0) =~= all);
    while i < displays.len()
        invariant
            i <= displays@.len(),
            all == frame::display_views(displays@),
            idx == (match display_index {
                Some(i) => i,
                None => 0,
            }),
            display_at(all, idx) == i + display_at(all.skip(i as int), idx),
        decreases displays.len() - i,
    {
        assert(all.skip(i as int)[0] == displays@[i as int]@);
        if displays[i].index == idx {
            return Ok(i);
        }
        assert(all.skip(i as int).skip(1) =~= all.skip(i + 1));
        i += 1;
    }
    let mut msg = text::numbered("display index ", idx as u64);
    msg.append(" not found (");
    text::push_decimal(&mut msg, displays.len() as u64);
    msg.append(" outputs total)");
    Err(RottenError::Capture(msg))
}

/// The output that a screen stands for.
pub fn output_of_display(outputs: &[u32], display: &DisplayInfo) -> (r: Result<u32, RottenError>)
    ensures
        match r {
            Ok(o) => display.index < outputs@.len() && o == outputs@[display.index as int],
            Err(e) => display.index >= outputs@.len() && e@ == ErrorView::Capture(
                "output index "@ + text::decimal(display.index as nat) + " missing"@,
            ),
        },
{
    let at: u64 = display.index as u64;
    if at < outputs.len() as u64 {
        Ok(outputs[at as usize])
    } else {
        let mut msg = text::numbered("output index ", at);
        msg.append(" missing");
        Err(RottenError::Capture(msg))
    }
}

/// The controller of an output, which has to have one.
pub fn active_crtc(crtc: u32, display: &DisplayInfo) -> (r: Result<u32, RottenError>)
    ensures
        match r {
            Ok(c) => crtc != 0 && c == crtc,
            Err(e) => crtc == 0 && e@ == ErrorView::Capture(
                "output "@ + display.name@ + " is not active"@,
            ),
        },
{
    if crtc != 0 {
        return Ok(crtc);
    }
    let mut msg = text::owned("output ");
    msg.append(display.name.as_str());
    msg.append(" is not active");
    Err(RottenError::Capture(msg))
}

/// The part of the root window that a screen shows.
#[derive(Debug, Clone)]
pub struct MonitorRegion {
    pub root: u32,
    pub x: i16,
    pub y: i16,
    pub width: u32,
    pub height: u32,
    pub depth: u8,
    pub name: String,
    pub index: u32,
    pub is_virtual: bool,
}

/// The region of a screen, given the controller that shows it.
pub fn monitor_region_for_display(screen: ScreenInfo, crtc: CrtcInfo, display: &DisplayInfo) -> (r:
    MonitorRegion)
    ensures
        r.root == screen.root,
        r.x == crtc.x,
        r.y == crtc.y,
        r.width == crtc.width,
        r.height == crtc.height,
        r.depth == screen.root_depth,
        r.name@ == display.name@,
        r.index == display.index,
        r.is_virtual == display.is_virtual,
{
    MonitorRegion {
        root: screen.root,
        x: crtc.x,
        y: crtc.y,
        width: crtc.width as u32,
        height: crtc.height as u32,
        depth: screen.root_depth,
        name: text::owned(display.name.as_str()),
        index: display.index,
        is_virtual: display.is_virtual,
    }
}

impl MonitorRegion {
    /// The screen of the region.
    pub fn displays(&self) -> (r: Vec<DisplayInfo>)
        ensures
            frame::display_views(r@) == seq![
                DisplayView {
                    index: self.index,
                    name: self.name@,
                    width: self.width,
                    height: self.height,
                    is_virtual: self.is_virtual,
                },
            ],
    {
        let info = DisplayInfo {
            index: self.index,
            name: text::owned(self.name.as_str()),
            width: self.width,
            height: self.height,
            is_virtual: self.is_virtual,
        };
        let mut out: Vec<DisplayInfo> = Vec::new();
        out.push(info);
        assert(frame::display_views(out@) =~= seq![info@]);
        out
    }
}

/// A screen that is found by its index among the screens of a server is one of an output that
/// the server has, as long as any output is active.
pub proof fn law_displays_are_outputs(
    outputs: Seq<OutputInfo>,
    crtcs: Seq<CrtcInfo>,
    screen: ScreenInfo,
    k: int,
)
    requires
        outputs.len() <= 0x1_0000_0000,
        0 <= k < active_displays(outputs, crtcs, screen).len(),
    ensures
        ({
            let d = active_displays(outputs, crtcs, screen)[k];
            &&& d.index < outputs.len()
            &&& outputs[d.index as int].crtc != 0
            &&& d == output_display(d.index as int, outputs[d.index as int], crtcs, screen)
        }),
    decreases outputs.len(),
{
    let front = outputs.drop_last();
    if k < active_displays(front, crtcs, screen).len() {
        law_displays_are_outputs(front, crtcs, screen, k);
        let d = active_displays(front, crtcs, screen)[k];
        assert(outputs[d.index as int] == front[d.index as int]);
    }
}

/// What is told of a controller that is listed more than once is what is listed last.
pub proof fn law_last_controller_counts(crtcs: Seq<CrtcInfo>, c: CrtcInfo, id: u32)
    ensures
        crtc_of(Seq::empty(), id) is None,
        crtc_of(crtcs.push(c), c.id) == Some(c),
        id != c.id ==> crtc_of(crtcs.push(c), id) == crtc_of(crtcs, id),
{
    assert(crtcs.push(c).drop_last() =~= crtcs);
}

/// One output more adds a screen exactly where the output is in use: with the place of the output
/// among all outputs as its index, and the size of its controller, or that of the whole screen
/// where nothing is known of the controller.
pub proof fn law_output_adds_a_screen(
    outputs: Seq<OutputInfo>,
    crtcs: Seq<CrtcInfo>,
    screen: ScreenInfo,
    o: OutputInfo,
)
    requires
        outputs.len() < 0x1_0000_0000,
    ensures
        ({
            let before = active_displays(outputs, crtcs, screen);
            let all = active_displays(outputs.push(o), crtcs, screen);
            &&& o.crtc == 0 ==> all == before
            &&& o.crtc != 0 ==> all.len() == before.len() + 1 && all.drop_last() == before
            &&& o.crtc != 0 ==> all.last().index == outputs.len()
            &&& o.crtc != 0 ==> (crtc_of(crtcs, o.crtc) matches Some(c) ==> all.last().width == c.width
                && all.last().height == c.height)
            &&& o.crtc != 0 && crtc_of(crtcs, o.crtc) is None ==> all.last().width == screen.width
                && all.last().height == screen.height
        }),
        active_displays(Seq::empty(), crtcs, screen).len() == 0,
{
    assert(outputs.push(o).drop_last() =~= outputs);
    let before = active_displays(outputs, crtcs, screen);
    let all = active_displays(outputs.push(o), crtcs, screen);
    if o.crtc != 0 {
        assert(all.drop_last() =~= before);
    }
}

/// A screen is found by its index: the first one that has it.
pub proof fn law_display_is_found(displays: Seq<DisplayView>, index: u32)
    ensures
        0 <= display_at(displays, index) <= displays.len(),
        display_at(displays, index) < displays.len() ==> displays[display_at(
            displays,
            index,
        )].index == index,
        forall|k: int|
            0 <= k < display_at(displays, index) ==> (#[trigger] displays[k]).index != index,
    decreases displays.len(),
{
    if displays.len() > 0 && displays[0].index != index {
        let rest = displays.skip(1);
        law_display_is_found(rest, index);
        assert forall|k: int| 0 <= k < display_at(displays, index) implies (
        #[trigger] displays[k]).index != index by {
            if k > 0 {
                assert(displays[k] == rest[k - 1]);
            }
        }
        if display_at(displays, index) < displays.len() {
            assert(displays[display_at(displays, index)] == rest[display_at(rest, index)]);
        }
    }
}
/// Where no output is in use there is one screen, of the size of the whole; else the screens are
/// those of the outputs, by their names.
pub proof fn law_some_screen_is_listed(
    outputs: Seq<OutputInfo>,
    crtcs: Seq<CrtcInfo>,
    screen: ScreenInfo,
    k: int,
)
    requires
        outputs.len() <= 0x1_0000_0000,
    ensures
        ({
            let all = randr_displays(outputs, crtcs, screen);
            let active = active_displays(outputs, crtcs, screen);
            &&& all.len() > 0
            &&& active.len() == 0 ==> all.len() == 1 && all[0].index == 0 && all[0].width
                == screen.width && all[0].height == screen.height && !all[0].is_virtual
            &&& 0 <= k < active.len() ==> all[k].name == codec::lossy_text(
                outputs[all[k].index as int].name@,
            )
            &&& 0 <= k < active.len() ==> all[k].is_virtual == virtual_display::virtual_name(
                config::lowercase(all[k].name),
            )
        }),
{
    if 0 <= k < active_displays(outputs, crtcs, screen).len() {
        law_displays_are_outputs(outputs, crtcs, screen, k);
    }
}
} // verus!
