//! What the parser reports beside the screen.

use crate::ratty_vt::event::strings_view;
use crate::ratty_vt::perform::{Notice, NoticeModel};
use crate::ratty_vt::screen::{params_view, Screen};
use vstd::prelude::*;

verus! {

/// This trait is used by the parser to handle extra escape sequences that
/// don't have an impact on the terminal screen directly.
pub trait Callbacks {
    /// Whether some callback may change the screen that it is shown.
    open spec fn touches_screen() -> bool {
        true
    }

    /// This callback is called when the terminal requests an audible bell
    /// (typically with `^G`).
    fn audible_bell(&mut self, screen: &mut Screen)
        requires
            old(screen)@.wf(),
        ensures
            final(screen)@.wf(),
            !Self::touches_screen() ==> final(screen)@ == old(screen)@,
    {
    }

    /// This callback is called when the terminal requests a visual bell
    /// (typically with `\eg`).
    fn visual_bell(&mut self, screen: &mut Screen)
        requires
            old(screen)@.wf(),
        ensures
            final(screen)@.wf(),
            !Self::touches_screen() ==> final(screen)@ == old(screen)@,
    {
    }

    /// This callback is called when the terminal requests a resize
    /// (typically with `\e[8;<rows>;<cols>t`).
    fn resize(&mut self, screen: &mut Screen, request: (u16, u16))
        requires
            old(screen)@.wf(),
        ensures
            final(screen)@.wf(),
            !Self::touches_screen() ==> final(screen)@ == old(screen)@,
    {
    }

    /// This callback is called when the terminal requests the icon name to be
    /// set (typically with `\e]1;<icon_name>\a`).
    fn set_window_icon_name(&mut self, screen: &mut Screen, icon_name: &[u8])
        requires
            old(screen)@.wf(),
        ensures
            final(screen)@.wf(),
            !Self::touches_screen() ==> final(screen)@ == old(screen)@,
    {
    }

    /// This callback is called when the terminal requests the window title to
    /// be set (typically with `\e]2;<title>\a`).
    fn set_window_title(&mut self, screen: &mut Screen, title: &[u8])
        requires
            old(screen)@.wf(),
        ensures
            final(screen)@.wf(),
            !Self::touches_screen() ==> final(screen)@ == old(screen)@,
    {
    }

    /// This callback is called when the terminal requests data to be copied
    /// to the system clipboard (typically with `\e]52;<ty>;<data>\a`). Note
    /// that `data` will be encoded as base64.
    fn copy_to_clipboard(&mut self, screen: &mut Screen, ty: &[u8], data: &[u8])
        requires
            old(screen)@.wf(),
        ensures
            final(screen)@.wf(),
            !Self::touches_screen() ==> final(screen)@ == old(screen)@,
    {
    }

    /// This callback is called when the terminal requests data to be pasted
    /// from the system clipboard (typically with `\e]52;<ty>;?\a`).
    fn paste_from_clipboard(&mut self, screen: &mut Screen, ty: &[u8])
        requires
            old(screen)@.wf(),
        ensures
            final(screen)@.wf(),
            !Self::touches_screen() ==> final(screen)@ == old(screen)@,
    {
    }

    /// This callback is called when the terminal receives a character which
    /// is not drawn.
    fn unhandled_char(&mut self, screen: &mut Screen, c: char)
        requires
            old(screen)@.wf(),
        ensures
            final(screen)@.wf(),
            !Self::touches_screen() ==> final(screen)@ == old(screen)@,
    {
    }

    /// This callback is called when the terminal receives a control character
    /// which is otherwise not implemented.
    fn unhandled_control(&mut self, screen: &mut Screen, b: u8)
        requires
            old(screen)@.wf(),
        ensures
            final(screen)@.wf(),
            !Self::touches_screen() ==> final(screen)@ == old(screen)@,
    {
    }

    /// This callback is called when the terminal receives an escape sequence
    /// which is otherwise not implemented.
    fn unhandled_escape(&mut self, screen: &mut Screen, i1: Option<u8>, i2: Option<u8>, b: u8)
        requires
            old(screen)@.wf(),
        ensures
            final(screen)@.wf(),
            !Self::touches_screen() ==> final(screen)@ == old(screen)@,
    {
    }

    /// This callback is called when the terminal receives a CSI sequence
    /// (`\e[`) which is otherwise not implemented.
    fn unhandled_csi(
        &mut self,
        screen: &mut Screen,
        i1: Option<u8>,
        i2: Option<u8>,
        params: &[&[u16]],
        c: char,
    )
        requires
            old(screen)@.wf(),
        ensures
            final(screen)@.wf(),
            !Self::touches_screen() ==> final(screen)@ == old(screen)@,
    {
    }

    /// This callback is called when the terminal receives a OSC sequence
    /// (`\e]`) which is otherwise not implemented.
    fn unhandled_osc(&mut self, screen: &mut Screen, params: &[&[u8]])
        requires
            old(screen)@.wf(),
        ensures
            final(screen)@.wf(),
            !Self::touches_screen() ==> final(screen)@ == old(screen)@,
    {
    }
}

/// Nobody listens.
impl Callbacks for () {
    open spec fn touches_screen() -> bool {
        false
    }
}

/// What borrowed lists hold.
pub open spec fn lists_of<T>(lists: Seq<&[T]>) -> Seq<Seq<T>> {
    Seq::new(lists.len(), |i: int| lists[i]@)
}

/// Hands a notice to the callback that it is for, with all that it says: what that
/// callback leaves of the listener and of the screen is what is left of them.
pub fn deliver<CB: Callbacks>(callbacks: &mut CB, screen: &mut Screen, notice: &Notice)
    requires
        old(screen)@.wf(),
    ensures
        match notice@ {
            NoticeModel::AudibleBell => exists|c: &mut CB, s: &mut Screen|
                #![trigger call_ensures(CB::audible_bell, (c, s), ())]
                call_ensures(CB::audible_bell, (c, s), ()) && *c == *old(callbacks) && *final(c)
                    == *final(callbacks) && *s == *old(screen) && *final(s) == *final(screen),
            NoticeModel::VisualBell => exists|c: &mut CB, s: &mut Screen|
                #![trigger call_ensures(CB::visual_bell, (c, s), ())]
                call_ensures(CB::visual_bell, (c, s), ()) && *c == *old(callbacks) && *final(c)
                    == *final(callbacks) && *s == *old(screen) && *final(s) == *final(screen),
            NoticeModel::Resize(rows, cols) => exists|c: &mut CB, s: &mut Screen, a: (u16, u16)|
                #![trigger call_ensures(CB::resize, (c, s, a), ())]
                call_ensures(CB::resize, (c, s, a), ()) && *c == *old(callbacks) && *final(c)
                    == *final(callbacks) && *s == *old(screen) && *final(s) == *final(screen) && a == (rows, cols),
            NoticeModel::IconName(name) => exists|c: &mut CB, s: &mut Screen, a: &[u8]|
                #![trigger call_ensures(CB::set_window_icon_name, (c, s, a), ())]
                call_ensures(CB::set_window_icon_name, (c, s, a), ()) && *c == *old(callbacks) && *final(c)
                    == *final(callbacks) && *s == *old(screen) && *final(s) == *final(screen) && a@ == name,
            NoticeModel::Title(title) => exists|c: &mut CB, s: &mut Screen, a: &[u8]|
                #![trigger call_ensures(CB::set_window_title, (c, s, a), ())]
                call_ensures(CB::set_window_title, (c, s, a), ()) && *c == *old(callbacks) && *final(c)
                    == *final(callbacks) && *s == *old(screen) && *final(s) == *final(screen) && a@ == title,
            NoticeModel::Copy(selection, data) => exists|c: &mut CB, s: &mut Screen, a: &[u8], b: &[u8]|
                #![trigger call_ensures(CB::copy_to_clipboard, (c, s, a, b), ())]
                call_ensures(CB::copy_to_clipboard, (c, s, a, b), ()) && *c == *old(callbacks) && *final(c)
                    == *final(callbacks) && *s == *old(screen) && *final(s) == *final(screen)
                    && a@ == selection && b@ == data,
            NoticeModel::Paste(selection) => exists|c: &mut CB, s: &mut Screen, a: &[u8]|
                #![trigger call_ensures(CB::paste_from_clipboard, (c, s, a), ())]
                call_ensures(CB::paste_from_clipboard, (c, s, a), ()) && *c == *old(callbacks) && *final(c)
                    == *final(callbacks) && *s == *old(screen) && *final(s) == *final(screen) && a@ == selection,
            NoticeModel::Char(ch) => exists|c: &mut CB, s: &mut Screen, a: char|
                #![trigger call_ensures(CB::unhandled_char, (c, s, a), ())]
                call_ensures(CB::unhandled_char, (c, s, a), ()) && *c == *old(callbacks) && *final(c)
                    == *final(callbacks) && *s == *old(screen) && *final(s) == *final(screen) && a == ch,
            NoticeModel::Control(byte) => exists|c: &mut CB, s: &mut Screen, a: u8|
                #![trigger call_ensures(CB::unhandled_control, (c, s, a), ())]
                call_ensures(CB::unhandled_control, (c, s, a), ()) && *c == *old(callbacks) && *final(c)
                    == *final(callbacks) && *s == *old(screen) && *final(s) == *final(screen) && a == byte,
            NoticeModel::Escape(first, second, byte) => exists|c: &mut CB, s: &mut Screen, i1: Option<u8>, i2: Option<u8>, b: u8|
                #![trigger call_ensures(CB::unhandled_escape, (c, s, i1, i2, b), ())]
                call_ensures(CB::unhandled_escape, (c, s, i1, i2, b), ()) && *c == *old(callbacks) && *final(c)
                    == *final(callbacks) && *s == *old(screen) && *final(s) == *final(screen)
                    && i1 == first && i2 == second && b == byte,
            NoticeModel::Csi(first, second, params, ch) => exists|c: &mut CB, s: &mut Screen, i1: Option<u8>, i2: Option<u8>, p: &[&[u16]], a: char|
                #![trigger call_ensures(CB::unhandled_csi, (c, s, i1, i2, p, a), ())]
                call_ensures(CB::unhandled_csi, (c, s, i1, i2, p, a), ()) && *c == *old(callbacks) && *final(c)
                    == *final(callbacks) && *s == *old(screen) && *final(s) == *final(screen)
                    && i1 == first && i2 == second && lists_of(p@) == params && a == ch,
            NoticeModel::Osc(params) => exists|c: &mut CB, s: &mut Screen, p: &[&[u8]]|
                #![trigger call_ensures(CB::unhandled_osc, (c, s, p), ())]
                call_ensures(CB::unhandled_osc, (c, s, p), ()) && *c == *old(callbacks) && *final(c)
                    == *final(callbacks) && *s == *old(screen) && *final(s) == *final(screen) && lists_of(p@) == params,
        },
        final(screen)@.wf(),
        !CB::touches_screen() ==> final(screen)@ == old(screen)@,
{
    match notice {
        Notice::AudibleBell => callbacks.audible_bell(screen),
        Notice::VisualBell => callbacks.visual_bell(screen),
        Notice::Resize(rows, cols) => callbacks.resize(screen, (*rows, *cols)),
        Notice::IconName(name) => callbacks.set_window_icon_name(screen, name.as_slice()),
        Notice::Title(title) => callbacks.set_window_title(screen, title.as_slice()),
        Notice::Copy(selection, data) => callbacks.copy_to_clipboard(
            screen,
            selection.as_slice(),
            data.as_slice(),
        ),
        Notice::Paste(selection) => callbacks.paste_from_clipboard(screen, selection.as_slice()),
        Notice::Char(c) => callbacks.unhandled_char(screen, *c),
        Notice::Control(b) => callbacks.unhandled_control(screen, *b),
        Notice::Escape(first, second, b) => callbacks.unhandled_escape(screen, *first, *second, *b),
        Notice::Csi(first, second, params, c) => {
            let borrowed = borrow_params(params);
            assert(lists_of(borrowed@) =~= params_view(params@));
            callbacks.unhandled_csi(screen, *first, *second, borrowed.as_slice(), *c)
        },
        Notice::Osc(params) => {
            let borrowed = borrow_strings(params);
            assert(lists_of(borrowed@) =~= strings_view(params@));
            callbacks.unhandled_osc(screen, borrowed.as_slice())
        },
    }
}

pub(crate) fn borrow_params(params: &Vec<Vec<u16>>) -> (r: Vec<&[u16]>)
    ensures
        r@.len() == params@.len(),
        forall|i: int| 0 <= i < r@.len() ==> (#[trigger] r@[i])@ == params@[i]@,
{
    let mut r: Vec<&[u16]> = Vec::new();
    let mut i: usize = 0;
    while i < params.len()
        invariant
            i <= params@.len(),
            r@.len() == i,
            forall|k: int| 0 <= k < i ==> (#[trigger] r@[k])@ == params@[k]@,
        decreases params@.len() - i,
    {
        r.push(params[i].as_slice());
        i = i + 1;
    }
    r
}

fn borrow_strings(strings: &Vec<Vec<u8>>) -> (r: Vec<&[u8]>)
    ensures
        r@.len() == strings@.len(),
        forall|i: int| 0 <= i < r@.len() ==> (#[trigger] r@[i])@ == strings@[i]@,
{
    let mut r: Vec<&[u8]> = Vec::new();
    let mut i: usize = 0;
    while i < strings.len()
        invariant
            i <= strings@.len(),
            r@.len() == i,
            forall|k: int| 0 <= k < i ==> (#[trigger] r@[k])@ == strings@[k]@,
        decreases strings@.len() - i,
    {
        r.push(strings[i].as_slice());
        i = i + 1;
    }
    r
}

} // verus!
