//! Pop-up windows over the interface: messages and a one-line text input.
use vstd::prelude::*;

use crate::events::Key;
use crate::text::{chars_of, lemma_split_all_nonempty, pieces_view, split_all, split_chars, string_from_chars};

verus! {

/// The colour of a pop-up's border and title.
#[derive(Clone, Copy, PartialEq, Eq, Structural)]
pub enum PopupColor {
    Red,
    Reset,
}

/// What a pop-up asks of the interface after a key.
pub enum PopupAction {
    /// Close the pop-up.
    Close,
    /// Leave things as they are.
    Nothing,
    /// The user confirmed the text typed into an input pop-up.
    Input(String),
}

/// A message.
pub struct TextPopup {
    pub message: String,
    pub title: String,
    pub color: PopupColor,
}

/// A one-line text input.
pub struct InputPopup {
    pub input: String,
    pub title: String,
    pub color: PopupColor,
}

/// A pop-up window.
pub enum Popup {
    Text(TextPopup),
    Input(InputPopup),
}

/// Mathematical form of a [`Popup`].
pub enum PopupView {
    Text { message: Seq<char>, title: Seq<char>, color: PopupColor },
    Input { input: Seq<char>, title: Seq<char>, color: PopupColor },
}

/// Mathematical form of a [`PopupAction`].
pub enum PopupActionView {
    Close,
    Nothing,
    Input(Seq<char>),
}

impl View for Popup {
    type V = PopupView;

    open spec fn view(&self) -> PopupView {
        match self {
            Popup::Text(p) => PopupView::Text { message: p.message@, title: p.title@, color: p.color },
            Popup::Input(p) => PopupView::Input { input: p.input@, title: p.title@, color: p.color },
        }
    }
}

impl View for PopupAction {
    type V = PopupActionView;

    open spec fn view(&self) -> PopupActionView {
        match self {
            PopupAction::Close => PopupActionView::Close,
            PopupAction::Nothing => PopupActionView::Nothing,
            PopupAction::Input(s) => PopupActionView::Input(s@),
        }
    }
}

/// A message closes on Enter and ignores every other key.
pub open spec fn text_popup_action(key: Key) -> PopupActionView {
    if key == Key::Enter {
        PopupActionView::Close
    } else {
        PopupActionView::Nothing
    }
}

/// An input pop-up after a key, and what it asks: Enter confirms the text,
/// Esc closes, Backspace removes the last character, a character is added.
pub open spec fn input_popup_step(input: Seq<char>, key: Key) -> (Seq<char>, PopupActionView) {
    match key {
        Key::Enter => (input, PopupActionView::Input(input)),
        Key::Esc => (input, PopupActionView::Close),
        Key::Backspace => (
            if input.len() > 0 {
                input.drop_last()
            } else {
                input
            },
            PopupActionView::Nothing,
        ),
        Key::Char(c) => (input.push(c), PopupActionView::Nothing),
        _ => (input, PopupActionView::Nothing),
    }
}

/// A pop-up after a key, and what it asks.
pub open spec fn popup_step(p: PopupView, key: Key) -> (PopupView, PopupActionView) {
    match p {
        PopupView::Text { .. } => (p, text_popup_action(key)),
        PopupView::Input { input, title, color } => {
            let (i, a) = input_popup_step(input, key);
            (PopupView::Input { input: i, title, color }, a)
        },
    }
}

/// `s` without one trailing carriage return.
pub open spec fn strip_cr(l: Seq<char>) -> Seq<char> {
    if l.len() > 0 && l.last() == '\r' {
        l.drop_last()
    } else {
        l
    }
}

/// The lines of a text as `str::lines` gives them: split at `\n`, a `\r`
/// before the `\n` dropped, and no empty line after a final `\n`.
pub open spec fn text_lines(s: Seq<char>) -> Seq<Seq<char>> {
    if s.len() == 0 {
        Seq::empty()
    } else {
        let pieces = split_all(s, seq!['\n']);
        let ended = pieces.subrange(0, pieces.len() - 1).map_values(|l: Seq<char>| strip_cr(l));
        if s.last() == '\n' {
            ended
        } else {
            ended.push(pieces.last())
        }
    }
}

/// The length of the longest line, or 0.
pub open spec fn max_width(lines: Seq<Seq<char>>) -> nat
    decreases lines.len(),
{
    if lines.len() == 0 {
        0
    } else {
        let w = max_width(lines.drop_last());
        if lines.last().len() > w {
            lines.last().len()
        } else {
            w
        }
    }
}

/// Width and height of a message pop-up in a `area_width` by `area_height`
/// area: the longest line plus borders and padding, and the line count (at
/// least 1) plus borders and padding, each at most the area's.
pub open spec fn popup_size(message: Seq<char>, area_width: u16, area_height: u16) -> (u16, u16) {
    let lines = text_lines(message);
    let h: nat = if lines.len() > 1 {
        lines.len()
    } else {
        1
    };
    let w = (max_width(lines) as u16) + 4 + 2;
    let hh = (h as u16) + 2 + 2;
    (
        if w < area_width {
            w as u16
        } else {
            area_width
        },
        if hh < area_height {
            hh as u16
        } else {
            area_height
        },
    )
}

/// The pop-up size fits the arithmetic: the truncated longest line plus 6
/// and the truncated line count plus 4 stay within `u16`.
pub open spec fn popup_size_fits(message: Seq<char>) -> bool {
    let lines = text_lines(message);
    let h: nat = if lines.len() > 1 {
        lines.len()
    } else {
        1
    };
    &&& (max_width(lines) as u16) + 6 <= u16::MAX
    &&& (h as u16) + 4 <= u16::MAX
}

/// In an input pop-up, Backspace takes back the character just typed.
pub proof fn lemma_backspace_undoes_typing(input: Seq<char>, c: char)
    ensures
        input_popup_step(input_popup_step(input, Key::Char(c)).0, Key::Backspace).0 == input,
{
    assert(input.push(c).drop_last() =~= input);
}

/// In an input pop-up a character is added at the end of the text, Enter
/// hands over the text as it stands, and Esc closes without changing it;
/// a message closes on Enter and on no other key.
pub proof fn lemma_input_keys(input: Seq<char>, c: char, key: Key)
    ensures
        input_popup_step(input, Key::Char(c)) == (input.push(c), PopupActionView::Nothing),
        input_popup_step(input, Key::Enter) == (input, PopupActionView::Input(input)),
        input_popup_step(input, Key::Esc) == (input, PopupActionView::Close),
        text_popup_action(key) == PopupActionView::Close <==> key == Key::Enter,
{
}

/// The longest line is as long as any line, and is one of them.
pub proof fn lemma_max_width(lines: Seq<Seq<char>>)
    ensures
        forall|k: int| 0 <= k < lines.len() ==> (#[trigger] lines[k]).len() <= max_width(lines),
        lines.len() > 0 ==> exists|k: int| 0 <= k < lines.len() && (#[trigger] lines[k]).len() == max_width(lines),
    decreases lines.len(),
{
    if lines.len() > 0 {
        let init = lines.drop_last();
        lemma_max_width(init);
        assert forall|k: int| 0 <= k < lines.len() implies (#[trigger] lines[k]).len() <= max_width(lines) by {
            if k < init.len() {
                assert(lines[k] == init[k]);
            }
        }
        if init.len() > 0 && max_width(init) >= lines.last().len() {
            let k = choose|k: int| 0 <= k < init.len() && (#[trigger] init[k]).len() == max_width(init);
            assert(lines[k] == init[k]);
        } else {
            assert(lines[lines.len() - 1] == lines.last());
        }
    }
}

/// A message pop-up never exceeds its area, and when the area leaves room
/// it is six columns wider than the longest line of the message (two of
/// border, four of padding) and four rows taller than its line count (at
/// least one line).
pub proof fn lemma_popup_size(message: Seq<char>, area_width: u16, area_height: u16)
    requires
        max_width(text_lines(message)) + 6 <= u16::MAX,
        text_lines(message).len() + 4 <= u16::MAX,
    ensures
        ({
            let (w, h) = popup_size(message, area_width, area_height);
            let lines = text_lines(message);
            &&& w <= area_width
            &&& h <= area_height
            &&& forall|k: int| 0 <= k < lines.len() ==> (#[trigger] lines[k]).len() + 6 <= w || w == area_width
            &&& lines.len() > 0 ==> exists|k: int| 0 <= k < lines.len() && (w == (#[trigger] lines[k]).len() + 6 || w == area_width)
            &&& lines.len() == 0 ==> (w == 6 || w == area_width)
            &&& h == area_height || h == if lines.len() > 1 {
                lines.len() + 4
            } else {
                5
            }
        }),
{
    lemma_max_width(text_lines(message));
}

impl TextPopup {
    /// Enter closes the message; other keys do nothing.
    pub fn handle_input(&self, key: Key) -> (r: PopupAction)
        ensures
            r@ == text_popup_action(key),
    {
        match key {
            Key::Enter => PopupAction::Close,
            _ => PopupAction::Nothing,
        }
    }

    /// Width and height of the pop-up in an area of the given size.
    pub fn size(&self, area_width: u16, area_height: u16) -> (r: (u16, u16))
        requires
            popup_size_fits(self.message@),
        ensures
            r == popup_size(self.message@, area_width, area_height),
    {
        let chars = chars_of(self.message.as_str());
        let ghost lines = text_lines(chars@);
        let mut width: usize = 0;
        let mut count: usize = 0;
        if chars.len() > 0 {
            let nl: Vec<char> = vec!['\n'];
            assert(nl@ =~= seq!['\n']);
            let pieces = split_chars(chars.as_slice(), nl.as_slice());
            proof {
                lemma_split_all_nonempty(chars@, seq!['\n']);
            }
            let ghost pv = pieces_view(pieces@);
            let n = pieces.len();
            let ghost ended = pv.subrange(0, n - 1).map_values(|l: Seq<char>| strip_cr(l));
            let mut k: usize = 0;
            assert(ended.subrange(0, 0) =~= Seq::<Seq<char>>::empty());
            while k + 1 < n
                invariant
                    n == pieces@.len(),
                    n >= 1,
                    pv == pieces_view(pieces@),
                    ended == pv.subrange(0, n - 1).map_values(|l: Seq<char>| strip_cr(l)),
                    k + 1 <= n,
                    width == max_width(ended.subrange(0, k as int)),
                    width <= usize::MAX,
                decreases n - k,
            {
                let piece = &pieces[k];
                let mut len = piece.len();
                if len > 0 && piece[len - 1] == '\r' {
                    len = len - 1;
                }
                assert(ended[k as int] == strip_cr(pieces@[k as int]@));
                assert(len == ended[k as int].len());
                assert(ended.subrange(0, k + 1).drop_last() =~= ended.subrange(0, k as int));
                if len > width {
                    width = len;
                }
                k += 1;
            }
            assert(ended.subrange(0, k as int) =~= ended);
            if chars[chars.len() - 1] == '\n' {
                count = n - 1;
                assert(lines == ended);
            } else {
                let last_len = pieces[n - 1].len();
                assert(lines == ended.push(pv[n - 1]));
                assert(lines.drop_last() =~= ended);
                if last_len > width {
                    width = last_len;
                }
                count = n;
            }
        } else {
            assert(lines =~= Seq::<Seq<char>>::empty());
        }
        let h: usize = if count > 1 {
            count
        } else {
            1
        };
        let w = (width as u16) + 4 + 2;
        let hh = (h as u16) + 2 + 2;
        (
            if w < area_width {
                w
            } else {
                area_width
            },
            if hh < area_height {
                hh
            } else {
                area_height
            },
        )
    }
}

impl InputPopup {
    /// Enter confirms the typed text, Esc closes, Backspace removes the last
    /// character, and a character is added to the text.
    pub fn handle_input(&mut self, key: Key) -> (r: PopupAction)
        ensures
            (final(self).input@, r@) == input_popup_step(old(self).input@, key),
            final(self).title == old(self).title,
            final(self).color == old(self).color,
    {
        match key {
            Key::Enter => PopupAction::Input(self.input.clone()),
            Key::Esc => PopupAction::Close,
            Key::Backspace => {
                let mut chars = chars_of(self.input.as_str());
                if chars.len() > 0 {
                    chars.pop();
                    self.input = string_from_chars(chars.as_slice());
                }
                PopupAction::Nothing
            },
            Key::Char(c) => {
                let mut chars = chars_of(self.input.as_str());
                chars.push(c);
                self.input = string_from_chars(chars.as_slice());
                PopupAction::Nothing
            },
            _ => PopupAction::Nothing,
        }
    }
}

impl Popup {
    /// Passes a key to the pop-up.
    pub fn handle_input(&mut self, key: Key) -> (r: PopupAction)
        ensures
            (final(self)@, r@) == popup_step(old(self)@, key),
    {
        match self {
            Popup::Text(p) => p.handle_input(key),
            Popup::Input(p) => p.handle_input(key),
        }
    }
}

} // verus!
