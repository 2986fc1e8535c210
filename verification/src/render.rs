//! Text for a terminal: shortened lines, a progress bar, colours.
use crate::text::{concat2, concat3, owned};
use vstd::prelude::*;

verus! {

/// The number of bytes that `text` takes in UTF-8.
pub open spec fn utf8_len(text: Seq<char>) -> nat {
    vstd::utf8::encode_utf8(text).len()
}

/// A status line of bounded length: `text` itself where it takes at most
/// 80 bytes, otherwise its first 77 characters and three dots.
pub open spec fn status_text(text: Seq<char>) -> Seq<char> {
    if utf8_len(text) <= 80 {
        text
    } else if text.len() <= 77 {
        text + "..."@
    } else {
        text.subrange(0, 77) + "..."@
    }
}

/// Shortens a status line; see [`status_text`].
pub fn truncate_status(text: &str) -> (out: String)
    ensures
        out@ == status_text(text@),
{
    let bytes = text.as_bytes().len();
    if bytes <= 80 {
        owned(text)
    } else {
        let count = text.unicode_len();
        let keep: usize = if count <= 77 {
            count
        } else {
            77
        };
        let head = text.substring_char(0, keep);
        assert(count <= 77 ==> head@ =~= text@);
        concat2(head, "...")
    }
}

/// The character that stands for what was cut out.
pub open spec fn ellipsis() -> Seq<char> {
    "\u{2026}"@
}

/// `text` in at most `max_len` characters: its beginning and its end
/// around an ellipsis where it is longer, the end getting the odd
/// character.
pub open spec fn middle_cut(text: Seq<char>, max_len: nat) -> Seq<char> {
    if max_len == 0 {
        Seq::empty()
    } else if text.len() <= max_len {
        text
    } else if max_len == 1 {
        ellipsis()
    } else {
        let head = (max_len - 1) / 2;
        let tail = max_len - 1 - head;
        text.subrange(0, head) + ellipsis() + text.subrange(text.len() - tail, text.len() as int)
    }
}

/// Shortens `text` to `max_len` characters by cutting out its middle; see
/// [`middle_cut`].
pub fn truncate_middle(text: &str, max_len: usize) -> (out: String)
    ensures
        out@ == middle_cut(text@, max_len as nat),
        out@.len() <= max_len,
{
    proof {
        reveal_strlit("\u{2026}");
    }
    if max_len == 0 {
        return String::new();
    }
    let count = text.unicode_len();
    if count <= max_len {
        return owned(text);
    }
    if max_len == 1 {
        return owned("\u{2026}");
    }
    let head_len: usize = (max_len - 1) / 2;
    let tail_len: usize = max_len - 1 - head_len;
    let head = text.substring_char(0, head_len);
    let tail = text.substring_char(count - tail_len, count);
    concat3(head, "\u{2026}", tail)
}

/// How many places of a bar of `width` are filled at `position` of
/// `total`: the share rounded up, and never more than all of them.
pub open spec fn bar_filled(position: nat, total: nat, width: nat) -> nat
    recommends
        total > 0,
{
    let share = (position * width + total - 1) / total as int;
    if share > width {
        width
    } else {
        share as nat
    }
}

/// The first `count` places of a bar of which `filled` are filled.
pub open spec fn bar_text(filled: nat, count: nat) -> Seq<char> {
    Seq::new(
        count,
        |i: int|
            if i < filled {
                '#'
            } else {
                '-'
            },
    )
}

/// A progress bar of `width` places; empty where `total` or `width` is 0.
pub open spec fn progress_bar(position: nat, total: nat, width: nat) -> Seq<char> {
    if total == 0 || width == 0 {
        Seq::empty()
    } else {
        bar_text(bar_filled(position, total, width), width)
    }
}

/// Draws a progress bar; see [`progress_bar`].
pub fn render_progress_bar(position: usize, total: usize, width: usize) -> (bar: String)
    ensures
        bar@ == progress_bar(position as nat, total as nat, width as nat),
{
    let mut bar = String::new();
    if total == 0 || width == 0 {
        return bar;
    }
    assert(position * width <= 0xffff_ffff_ffff_ffff * 0xffff_ffff_ffff_ffff) by (nonlinear_arith)
        requires
            0 <= position <= 0xffff_ffff_ffff_ffff,
            0 <= width <= 0xffff_ffff_ffff_ffff,
    ;
    let share: u128 = ((position as u128) * (width as u128) + (total as u128) - 1) / (total as u128);
    let filled: usize = if share > width as u128 {
        width
    } else {
        share as usize
    };
    proof {
        reveal_strlit("#");
        reveal_strlit("-");
    }
    let mut i: usize = 0;
    assert(bar@ =~= bar_text(filled as nat, 0));
    while i < width
        invariant
            i <= width,
            filled <= width,
            "#"@ == seq!['#'],
            "-"@ == seq!['-'],
            bar@ == bar_text(filled as nat, i as nat),
        decreases width - i,
    {
        if i < filled {
            bar.append("#");
        } else {
            bar.append("-");
        }
        assert(bar@ =~= bar_text(filled as nat, (i + 1) as nat));
        i += 1;
    }
    bar
}

/// A size by its order of magnitude.
#[derive(Clone, Copy, Debug, PartialEq, Eq, Structural)]
pub enum SizeTier {
    /// Below one kibibyte.
    Bytes,
    Kibi,
    Mebi,
    Gibi,
    /// One tebibyte and more.
    Tebi,
}

/// The order of magnitude of a size.
pub open spec fn tier_of(size_bytes: u64) -> SizeTier {
    if size_bytes >= 1_099_511_627_776 {
        SizeTier::Tebi
    } else if size_bytes >= 1_073_741_824 {
        SizeTier::Gibi
    } else if size_bytes >= 1_048_576 {
        SizeTier::Mebi
    } else if size_bytes >= 1_024 {
        SizeTier::Kibi
    } else {
        SizeTier::Bytes
    }
}

/// Finds the order of magnitude of a size.
pub fn size_tier(size_bytes: u64) -> (tier: SizeTier)
    ensures
        tier == tier_of(size_bytes),
{
    if size_bytes >= 1_099_511_627_776 {
        SizeTier::Tebi
    } else if size_bytes >= 1_073_741_824 {
        SizeTier::Gibi
    } else if size_bytes >= 1_048_576 {
        SizeTier::Mebi
    } else if size_bytes >= 1_024 {
        SizeTier::Kibi
    } else {
        SizeTier::Bytes
    }
}

/// The escape sequence that ends every styled text.
pub open spec fn reset_code() -> Seq<char> {
    "\u{1b}[0m"@
}

/// The first `count` escape sequences in a row.
pub open spec fn codes_text(codes: Seq<&str>, count: nat) -> Seq<char>
    decreases count,
{
    if count == 0 || count > codes.len() {
        Seq::empty()
    } else {
        codes_text(codes, (count - 1) as nat) + codes[count - 1]@
    }
}

/// `text` as it is written out: wrapped in the escape sequences and the
/// reset where colours are on and there is a sequence, else plain.
pub open spec fn styled(use_color: bool, text: Seq<char>, codes: Seq<&str>) -> Seq<char> {
    if !use_color || codes.len() == 0 {
        text
    } else {
        codes_text(codes, codes.len()) + text + reset_code()
    }
}

/// `text` wrapped in one escape sequence where colours are on.
pub open spec fn painted(use_color: bool, text: Seq<char>, code: Seq<char>) -> Seq<char> {
    if use_color {
        code + text + reset_code()
    } else {
        text
    }
}

/// The escape sequence for the text that stands for a size.
pub open spec fn size_code(size_bytes: u64) -> Seq<char> {
    match tier_of(size_bytes) {
        SizeTier::Tebi => "\u{1b}[36m"@,
        SizeTier::Gibi => "\u{1b}[33m"@,
        SizeTier::Mebi => "\u{1b}[34m"@,
        SizeTier::Kibi => "\u{1b}[32m"@,
        SizeTier::Bytes => "\u{1b}[2m"@,
    }
}

/// Decides how text for the terminal is written.
#[derive(Clone, Copy, Debug)]
pub struct TerminalStyler {
    pub use_color: bool,
    pub supports_animation: bool,
}

impl TerminalStyler {
    /// Colours are on where the user did not switch them off, by flag or
    /// by environment, and the output is a terminal; animation needs a
    /// terminal only.
    pub fn new(no_color: bool, stdout_terminal: bool, env_no_color: bool) -> (styler: Self)
        ensures
            styler.use_color == (!no_color && stdout_terminal && !env_no_color),
            styler.supports_animation == stdout_terminal,
    {
        TerminalStyler {
            use_color: !no_color && stdout_terminal && !env_no_color,
            supports_animation: stdout_terminal,
        }
    }

    /// Wraps `text` in the given escape sequences; see [`styled`].
    pub fn format(&self, text: &str, codes: &[&str]) -> (out: String)
        ensures
            out@ == styled(self.use_color, text@, codes@),
    {
        if !self.use_color || codes.len() == 0 {
            return owned(text);
        }
        let mut out = String::new();
        let mut i: usize = 0;
        assert(out@ =~= codes_text(codes@, 0));
        while i < codes.len()
            invariant
                i <= codes@.len(),
                out@ == codes_text(codes@, i as nat),
            decreases codes@.len() - i,
        {
            out.append(codes[i]);
            i += 1;
        }
        out.append(text);
        out.append("\u{1b}[0m");
        out
    }

    fn paint(&self, text: &str, code: &str) -> (out: String)
        ensures
            out@ == painted(self.use_color, text@, code@),
    {
        if self.use_color {
            concat3(code, text, "\u{1b}[0m")
        } else {
            owned(text)
        }
    }

    /// Bold text.
    pub fn bold(&self, text: &str) -> (out: String)
        ensures
            out@ == painted(self.use_color, text@, "\u{1b}[1m"@),
    {
        self.paint(text, "\u{1b}[1m")
    }

    /// Faint text, for what matters less.
    pub fn dim(&self, text: &str) -> (out: String)
        ensures
            out@ == painted(self.use_color, text@, "\u{1b}[2m"@),
    {
        self.paint(text, "\u{1b}[2m")
    }

    /// Green text, for what went well.
    pub fn success(&self, text: &str) -> (out: String)
        ensures
            out@ == painted(self.use_color, text@, "\u{1b}[32m"@),
    {
        self.paint(text, "\u{1b}[32m")
    }

    /// Yellow text, for what needs a look.
    pub fn warning(&self, text: &str) -> (out: String)
        ensures
            out@ == painted(self.use_color, text@, "\u{1b}[33m"@),
    {
        self.paint(text, "\u{1b}[33m")
    }

    /// Blue text.
    pub fn blue(&self, text: &str) -> (out: String)
        ensures
            out@ == painted(self.use_color, text@, "\u{1b}[34m"@),
    {
        self.paint(text, "\u{1b}[34m")
    }

    /// Red text, for what went wrong.
    pub fn error(&self, text: &str) -> (out: String)
        ensures
            out@ == painted(self.use_color, text@, "\u{1b}[31m"@),
    {
        self.paint(text, "\u{1b}[31m")
    }

    /// Cyan text, for what stands out.
    pub fn accent(&self, text: &str) -> (out: String)
        ensures
            out@ == painted(self.use_color, text@, "\u{1b}[36m"@),
    {
        self.paint(text, "\u{1b}[36m")
    }
}

/// Colours the text that stands for a size by its order of magnitude.
pub fn colorize_size(size_bytes: u64, text: &str, styler: &TerminalStyler) -> (out: String)
    ensures
        out@ == painted(styler.use_color, text@, size_code(size_bytes)),
{
    match size_tier(size_bytes) {
        SizeTier::Tebi => styler.accent(text),
        SizeTier::Gibi => styler.warning(text),
        SizeTier::Mebi => styler.blue(text),
        SizeTier::Kibi => styler.success(text),
        SizeTier::Bytes => styler.dim(text),
    }
}

} // verus!
