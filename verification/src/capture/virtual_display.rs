//! Virtual screens, for a desktop that is extended to the receiver.

use crate::capture::frame::DisplayInfo;
use crate::config;
use crate::text;
use vstd::prelude::*;

verus! {

/// Whether a name in lower case holds one of the words that mark a virtual screen.
pub open spec fn virtual_name(n: Seq<char>) -> bool {
    ||| text::contains_text(n, "virtual"@)
    ||| text::contains_text(n, "indirect"@)
    ||| text::contains_text(n, "idd"@)
    ||| text::contains_text(n, "parsec"@)
    ||| text::contains_text(n, "spacedesk"@)
    ||| text::contains_text(n, "dummy"@)
    ||| text::contains_text(n, "vdd"@)
    ||| text::contains_text(n, "displaylink"@)
    ||| text::contains_text(n, "evdi"@)
    ||| text::contains_text(n, "sunshine"@)
    ||| text::contains_text(n, "moonlight"@)
}

fn holds(n: &[char], word: &str) -> (r: bool)
    ensures
        r == text::contains_text(n@, word@),
{
    let w = text::chars_of(word);
    text::has_text(n, &w)
}

/// Whether a name in lower case marks a virtual screen.
pub fn is_virtual_lowercase(name: &str) -> (r: bool)
    ensures
        r == virtual_name(name@),
{
    let n = text::chars_of(name);
    holds(&n, "virtual") || holds(&n, "indirect") || holds(&n, "idd") || holds(&n, "parsec")
        || holds(&n, "spacedesk") || holds(&n, "dummy") || holds(&n, "vdd") || holds(
        &n,
        "displaylink",
    ) || holds(&n, "evdi") || holds(&n, "sunshine") || holds(&n, "moonlight")
}

/// Whether the name of a monitor marks a virtual screen, in any case.
pub fn is_virtual_display_name(name: &str) -> (r: bool)
    ensures
        r == virtual_name(config::lowercase(name@)),
        vstd::utf8::is_ascii_chars(name@) ==> r == virtual_name(text::ascii_lower(name@)),
{
    let n = config::to_lowercase(name);
    is_virtual_lowercase(n.as_str())
}

/// Selects virtual screens.
pub open spec fn virtual_screen() -> spec_fn(DisplayInfo) -> bool {
    |d: DisplayInfo| d.is_virtual
}

/// What references point to.
pub open spec fn pointed(s: Seq<&DisplayInfo>) -> Seq<DisplayInfo> {
    Seq::new(s.len(), |i: int| *s[i])
}

/// The virtual screens, in order.
pub fn filter_virtual_displays(displays: &[DisplayInfo]) -> (r: Vec<&DisplayInfo>)
    ensures
        pointed(r@) == displays@.filter(virtual_screen()),
{
    let mut out: Vec<&DisplayInfo> = Vec::new();
    let mut i: usize = 0;
    proof {
        reveal(Seq::filter);
        assert(displays@.take(0).filter(virtual_screen()) =~= Seq::empty());
    }
    while i < displays.len()
        invariant
            i <= displays@.len(),
            pointed(out@) == displays@.take(i as int).filter(virtual_screen()),
        decreases displays.len() - i,
    {
        let ghost before = out@;
        proof {
            reveal(Seq::filter);
            assert(displays@.take(i + 1).drop_last() =~= displays@.take(i as int));
        }
        if displays[i].is_virtual {
            out.push(&displays[i]);
            assert(pointed(out@) =~= pointed(before).push(displays@[i as int]));
        }
        i += 1;
    }
    assert(displays@.take(displays@.len() as int) =~= displays@);
    out
}

/// The index of the screen to capture among virtual ones: the preferred index where a virtual
/// screen has it, otherwise that of the first.
pub open spec fn selected_index(virtuals: Seq<DisplayInfo>, preferred: Option<u32>) -> Option<u32> {
    if virtuals.len() == 0 {
        None
    } else if preferred matches Some(idx) && has_index(virtuals, idx) {
        preferred
    } else {
        Some(virtuals[0].index)
    }
}

/// Whether a screen has the index.
pub open spec fn has_index(displays: Seq<DisplayInfo>, index: u32) -> bool {
    exists|i: int| 0 <= i < displays.len() && (#[trigger] displays[i]).index == index
}

/// The index of the virtual screen to capture.
pub fn select_virtual_display(displays: &[DisplayInfo], preferred_index: Option<u32>) -> (r: Option<
    u32,
>)
    ensures
        r == selected_index(displays@.filter(virtual_screen()), preferred_index),
{
    let virtuals = filter_virtual_displays(displays);
    let ghost all = pointed(virtuals@);
    if virtuals.len() == 0 {
        return None;
    }
    if let Some(idx) = preferred_index {
        let mut i: usize = 0;
        while i < virtuals.len()
            invariant
                i <= virtuals@.len(),
                virtuals@.len() > 0,
                all == pointed(virtuals@),
                all == displays@.filter(virtual_screen()),
                preferred_index == Some(idx),
                forall|k: int| 0 <= k < i ==> (#[trigger] all[k]).index != idx,
            decreases virtuals.len() - i,
        {
            if virtuals[i].index == idx {
                assert(all[i as int].index == idx);
                return Some(idx);
            }
            i += 1;
        }
        assert(!has_index(all, idx));
    }
    assert(all[0] == *virtuals@[0]);
    Some(virtuals[0].index)
}

proof fn lemma_filtered(displays: Seq<DisplayInfo>, i: int)
    requires
        0 <= i < displays.filter(virtual_screen()).len(),
    ensures
        displays.filter(virtual_screen())[i].is_virtual,
        has_virtual(displays, displays.filter(virtual_screen())[i].index),
    decreases displays.len(),
{
    reveal(Seq::filter);
    let front = displays.drop_last();
    let f = front.filter(virtual_screen());
    if i < f.len() {
        lemma_filtered(front, i);
        let idx = f[i].index;
        let k = choose|k: int|
            0 <= k < front.len() && (#[trigger] front[k]).is_virtual && front[k].index == idx;
        assert(displays[k] == front[k]);
    } else {
        assert(displays[displays.len() - 1].is_virtual);
    }
}

/// Whether a virtual screen has the index.
pub open spec fn has_virtual(displays: Seq<DisplayInfo>, index: u32) -> bool {
    exists|k: int|
        0 <= k < displays.len() && (#[trigger] displays[k]).is_virtual && displays[k].index == index
}

/// What is selected is the index of a virtual screen, whatever index is preferred.
pub proof fn law_selects_virtual(displays: Seq<DisplayInfo>, preferred: Option<u32>)
    ensures
        selected_index(displays.filter(virtual_screen()), preferred) matches Some(idx)
            ==> has_virtual(displays, idx),
{
    let v = displays.filter(virtual_screen());
    if v.len() > 0 {
        lemma_filtered(displays, 0);
        if preferred is Some && has_index(v, preferred->0) {
            let i = choose|i: int| 0 <= i < v.len() && (#[trigger] v[i]).index == preferred->0;
            lemma_filtered(displays, i);
        }
    }
}

/// A name is that of a virtual screen wherever one of the known words stands in it.
pub proof fn law_words_tell_virtual(before: Seq<char>, word: Seq<char>, behind: Seq<char>)
    requires
        word == "virtual"@ || word == "indirect"@ || word == "idd"@ || word == "parsec"@ || word
            == "spacedesk"@ || word == "dummy"@ || word == "vdd"@ || word == "displaylink"@ || word
            == "evdi"@ || word == "sunshine"@ || word == "moonlight"@,
    ensures
        virtual_name(before + word + behind),
        virtual_name(before) ==> virtual_name(before + behind) && virtual_name(behind + before),
{
    text::law_texts_are_found(before, word, behind);
    lemma_still_found(before, behind, "virtual"@);
    lemma_still_found(before, behind, "indirect"@);
    lemma_still_found(before, behind, "idd"@);
    lemma_still_found(before, behind, "parsec"@);
    lemma_still_found(before, behind, "spacedesk"@);
    lemma_still_found(before, behind, "dummy"@);
    lemma_still_found(before, behind, "vdd"@);
    lemma_still_found(before, behind, "displaylink"@);
    lemma_still_found(before, behind, "evdi"@);
    lemma_still_found(before, behind, "sunshine"@);
    lemma_still_found(before, behind, "moonlight"@);
}

proof fn lemma_still_found(s: Seq<char>, more: Seq<char>, word: Seq<char>)
    ensures
        text::contains_text(s, word) ==> text::contains_text(s + more, word) && text::contains_text(
            more + s,
            word,
        ),
{
    if text::contains_text(s, word) {
        let i = choose|i: int| text::occurs_at(s, word, i);
        let j = i + more.len();
        assert((s + more).subrange(i, i + word.len()) =~= s.subrange(i, i + word.len()));
        assert((more + s).subrange(j, j + word.len()) =~= s.subrange(i, i + word.len()));
        assert(text::occurs_at(s + more, word, i));
        assert(text::occurs_at(more + s, word, j));
    }
}

/// The preferred screen is taken where it is a virtual one, and else the first virtual one; there
/// is none to take exactly where no screen is virtual.
pub proof fn law_preferred_virtual(displays: Seq<DisplayInfo>, preferred: u32, first: int)
    requires
        0 <= first < displays.len(),
        displays[first].is_virtual,
        forall|k: int| 0 <= k < first ==> !(#[trigger] displays[k]).is_virtual,
    ensures
        has_virtual(displays, preferred) ==> selected_index(
            displays.filter(virtual_screen()),
            Some(preferred),
        ) == Some(preferred),
        !has_virtual(displays, preferred) ==> selected_index(
            displays.filter(virtual_screen()),
            Some(preferred),
        ) == Some(displays[first].index),
        selected_index(displays.filter(virtual_screen()), None) == Some(displays[first].index),
{
    let v = displays.filter(virtual_screen());
    lemma_first_kept(displays, first);
    if has_virtual(displays, preferred) {
        let k = choose|k: int|
            0 <= k < displays.len() && (#[trigger] displays[k]).is_virtual && displays[k].index
                == preferred;
        lemma_kept(displays, k);
        let i = choose|i: int| 0 <= i < v.len() && v[i] == displays[k];
        assert(v[i].index == preferred);
        assert(has_index(v, preferred));
    } else {
        if has_index(v, preferred) {
            let i = choose|i: int| 0 <= i < v.len() && (#[trigger] v[i]).index == preferred;
            lemma_filtered(displays, i);
        }
    }
}

proof fn lemma_kept(displays: Seq<DisplayInfo>, k: int)
    requires
        0 <= k < displays.len(),
        displays[k].is_virtual,
    ensures
        displays.filter(virtual_screen()).contains(displays[k]),
    decreases displays.len(),
{
    reveal(Seq::filter);
    let front = displays.drop_last();
    let r = displays.filter(virtual_screen());
    if k == displays.len() - 1 {
        assert(r[r.len() - 1] == displays[k]);
    } else {
        lemma_kept(front, k);
        let f = front.filter(virtual_screen());
        let i = choose|i: int| 0 <= i < f.len() && f[i] == front[k];
        assert(r[i] == displays[k]);
    }
}

proof fn lemma_first_kept(displays: Seq<DisplayInfo>, first: int)
    requires
        0 <= first < displays.len(),
        displays[first].is_virtual,
        forall|k: int| 0 <= k < first ==> !(#[trigger] displays[k]).is_virtual,
    ensures
        displays.filter(virtual_screen()).len() > 0,
        displays.filter(virtual_screen())[0] == displays[first],
    decreases displays.len(),
{
    reveal(Seq::filter);
    let front = displays.drop_last();
    if first == displays.len() - 1 {
        lemma_none_kept(front);
    } else {
        assert forall|k: int| 0 <= k < first implies !(#[trigger] front[k]).is_virtual by {
            assert(front[k] == displays[k]);
        }
        lemma_first_kept(front, first);
    }
}

proof fn lemma_none_kept(displays: Seq<DisplayInfo>)
    requires
        forall|k: int| 0 <= k < displays.len() ==> !(#[trigger] displays[k]).is_virtual,
    ensures
        displays.filter(virtual_screen()).len() == 0,
    decreases displays.len(),
{
    reveal(Seq::filter);
    if displays.len() > 0 {
        let front = displays.drop_last();
        assert forall|k: int| 0 <= k < front.len() implies !(#[trigger] front[k]).is_virtual by {
            assert(front[k] == displays[k]);
        }
        lemma_none_kept(front);
        assert(!displays[displays.len() - 1].is_virtual);
    }
}
} // verus!
