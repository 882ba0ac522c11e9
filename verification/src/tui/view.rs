use vstd::prelude::*;

use crate::search::{score, score_spec, MAX_QUERY_CHARS};
use crate::text::{chars_of, decimal, lines_view, push_all, push_decimal, push_str, string_of};
use vstd::string::StringSliceAdditionalSpecFns;
use vstd::utf8::encode_utf8;

verus! {

pub const HIDE_CURSOR: &'static str = "\x1b[?25l";
pub const SHOW_CURSOR: &'static str = "\x1b[?25h";
pub const CLEAR_LINE: &'static str = "\x1b[2K";
/// Lines of the build log shown while it is collapsed.
pub const COLLAPSED_LINES: usize = 3;
pub const EXPAND_HINT: &'static str = "Building...  Ctrl-O expand";
pub const COLLAPSE_HINT: &'static str = "Building...  Ctrl-O collapse";

/// What to draw next: lines to print for good, then the lines to redraw in place.
#[derive(Debug, Default, PartialEq)]
pub struct Frame {
    pub commit: Vec<String>,
    pub live: Vec<String>,
}

/// The build log as the terminal shows it: collapsed to its last lines, or expanded.
pub struct BuildLogView {
    pub buffer: Vec<String>,
    expanded: bool,
    emitted: usize,
    width: usize,
}

/// The state of a [`BuildLogView`].
pub struct LogModel {
    /// Every line received so far, without escape sequences.
    pub buffer: Seq<Seq<char>>,
    pub expanded: bool,
    /// How many lines of `buffer` have been printed for good.
    pub emitted: nat,
    /// Width to which collapsed lines are cut.
    pub width: nat,
}

impl View for BuildLogView {
    type V = LogModel;

    closed spec fn view(&self) -> LogModel {
        LogModel {
            buffer: lines_view(self.buffer@),
            expanded: self.expanded,
            emitted: self.emitted as nat,
            width: self.width as nat,
        }
    }
}

pub open spec fn is_ascii_alpha(c: char) -> bool {
    ('a' <= c && c <= 'z') || ('A' <= c && c <= 'Z')
}

/// Position after the final byte of a CSI sequence whose parameters start at `k`.
pub open spec fn csi_end(s: Seq<char>, k: int) -> int
    decreases s.len() - k,
{
    if k < 0 || k >= s.len() {
        s.len() as int
    } else if is_ascii_alpha(s[k]) {
        k + 1
    } else {
        csi_end(s, k + 1)
    }
}

/// Position after the terminator of an OSC sequence whose text starts at `k`.
pub open spec fn osc_end(s: Seq<char>, k: int) -> int
    decreases s.len() - k,
{
    if k < 0 || k >= s.len() {
        s.len() as int
    } else if s[k] == '\x07' || s[k] == '\u{9C}' {
        k + 1
    } else {
        osc_end(s, k + 1)
    }
}

/// The text of `s` from `i` on, without terminal escape sequences.
pub open spec fn strip_from(s: Seq<char>, i: int) -> Seq<char>
    decreases s.len() - i,
{
    if i < 0 || i >= s.len() {
        Seq::empty()
    } else if s[i] != '\x1b' {
        seq![s[i]] + strip_from(s, i + 1)
    } else if i + 1 >= s.len() {
        Seq::empty()
    } else if s[i + 1] == '[' {
        let e = csi_end(s, i + 2);
        if i < e && e <= s.len() {
            strip_from(s, e)
        } else {
            Seq::empty()
        }
    } else if s[i + 1] == ']' {
        let e = osc_end(s, i + 2);
        if i < e && e <= s.len() {
            strip_from(s, e)
        } else {
            Seq::empty()
        }
    } else {
        strip_from(s, i + 2)
    }
}

pub open spec fn strip(s: Seq<char>) -> Seq<char> {
    strip_from(s, 0)
}

proof fn lemma_csi_end(s: Seq<char>, k: int)
    requires
        0 <= k,
    ensures
        k <= csi_end(s, k) <= s.len() || (k > s.len() && csi_end(s, k) == s.len()),
    decreases s.len() - k,
{
    if k < s.len() {
        lemma_csi_end(s, k + 1);
    }
}

proof fn lemma_osc_end(s: Seq<char>, k: int)
    requires
        0 <= k,
    ensures
        k <= osc_end(s, k) <= s.len() || (k > s.len() && osc_end(s, k) == s.len()),
    decreases s.len() - k,
{
    if k < s.len() {
        lemma_osc_end(s, k + 1);
    }
}

fn is_ascii_alpha_exec(c: char) -> (r: bool)
    ensures
        r == is_ascii_alpha(c),
{
    ('a' <= c && c <= 'z') || ('A' <= c && c <= 'Z')
}

/// `line` without its terminal escape sequences (CSI and OSC, and any other
/// escape with the character after it).
pub fn strip_escapes(line: &str) -> (r: String)
    ensures
        r@ == strip(line@),
{
    let s = chars_of(line);
    let mut out: Vec<char> = Vec::new();
    let mut i: usize = 0;
    while i < s.len()
        invariant
            i <= s.len(),
            strip(s@) == out@ + strip_from(s@, i as int),
        decreases s.len() - i,
    {
        let c = s[i];
        if c != '\x1b' {
            let ghost before = out@;
            out.push(c);
            assert(out@ + strip_from(s@, i + 1) =~= before + strip_from(s@, i as int));
            i += 1;
        } else if s.len() - i < 2 {
            i = s.len();
        } else if s[i + 1] == '[' {
            proof { lemma_csi_end(s@, i + 2); }
            let mut k = i + 2;
            while k < s.len() && !is_ascii_alpha_exec(s[k])
                invariant
                    i + 2 <= k <= s.len(),
                    csi_end(s@, i + 2) == csi_end(s@, k as int),
                decreases s.len() - k,
            {
                k += 1;
            }
            if k < s.len() {
                k += 1;
            }
            i = k;
        } else if s[i + 1] == ']' {
            proof { lemma_osc_end(s@, i + 2); }
            let mut k = i + 2;
            while k < s.len() && !(s[k] == '\x07' || s[k] == '\u{9C}')
                invariant
                    i + 2 <= k <= s.len(),
                    osc_end(s@, i + 2) == osc_end(s@, k as int),
                decreases s.len() - k,
            {
                k += 1;
            }
            if k < s.len() {
                k += 1;
            }
            i = k;
        } else {
            i = i + 2;
        }
    }
    assert(out@ + Seq::<char>::empty() =~= out@);
    string_of(out.as_slice())
}

pub open spec fn min(a: nat, b: nat) -> nat {
    if a <= b {
        a
    } else {
        b
    }
}

/// The last `COLLAPSED_LINES` lines of `buffer`, each cut to `width` characters, padded
/// with empty lines at the end.
pub open spec fn window(buffer: Seq<Seq<char>>, width: nat) -> Seq<Seq<char>> {
    let start = if buffer.len() >= COLLAPSED_LINES {
        buffer.len() - COLLAPSED_LINES
    } else {
        0
    };
    Seq::new(
        COLLAPSED_LINES as nat,
        |i: int|
            if start + i < buffer.len() {
                buffer[start + i].take(min(width, buffer[start + i].len()) as int)
            } else {
                Seq::<char>::empty()
            },
    )
}

fn take_chars(s: &String, width: usize) -> (r: String)
    ensures
        r@ == s@.take(min(width as nat, s@.len()) as int),
{
    let v = chars_of(s.as_str());
    let n = if width < v.len() { width } else { v.len() };
    let mut out: Vec<char> = Vec::new();
    let mut i: usize = 0;
    while i < n
        invariant
            i <= n <= v.len(),
            out@ == v@.take(i as int),
        decreases n - i,
    {
        out.push(v[i]);
        proof { assert(v@.take(i + 1) =~= v@.take(i as int).push(v@[i as int])); }
        i += 1;
    }
    string_of(out.as_slice())
}

/// The lines shown while the log is collapsed.
pub fn collapsed_window(buffer: &[String], width: usize) -> (r: Vec<String>)
    ensures
        lines_view(r@) == window(lines_view(buffer@), width as nat),
{
    let start = if buffer.len() >= COLLAPSED_LINES { buffer.len() - COLLAPSED_LINES } else { 0 };
    let mut out: Vec<String> = Vec::new();
    let mut i: usize = 0;
    while i < COLLAPSED_LINES
        invariant
            i <= COLLAPSED_LINES,
            start == (if buffer.len() >= COLLAPSED_LINES { buffer.len() - COLLAPSED_LINES } else { 0 }),
            out.len() == i,
            forall|k: int| 0 <= k < i ==> #[trigger] out@[k]@ == window(lines_view(buffer@), width as nat)[k],
        decreases COLLAPSED_LINES - i,
    {
        if i < buffer.len() - start {
            let line = take_chars(&buffer[start + i], width);
            out.push(line);
        } else {
            out.push(string_of(Vec::<char>::new().as_slice()));
        }
        i += 1;
    }
    assert(lines_view(out@) =~= window(lines_view(buffer@), width as nat));
    out
}

impl BuildLogView {
    /// Whether the count of printed lines is within the buffer.
    pub closed spec fn wf(&self) -> bool {
        self.emitted <= self.buffer.len()
    }

    /// An empty, collapsed view that cuts lines to `width`.
    pub fn new(width: usize) -> (r: Self)
        ensures
            r.wf(),
            r@ == (LogModel { buffer: Seq::empty(), expanded: false, emitted: 0, width: width as nat }),
    {
        let r = BuildLogView { buffer: Vec::new(), expanded: false, emitted: 0, width };
        assert(r@.buffer =~= Seq::<Seq<char>>::empty());
        r
    }

    /// Adds `lines` to the log, without their escape sequences, and gives the frame to draw.
    pub fn on_lines(self, lines: Vec<String>) -> (r: (Self, Frame))
        requires
            self.wf(),
        ensures
            r.0.wf(),
            advanced(
                LogModel {
                    buffer: self@.buffer + lines_view(lines@).map_values(|l: Seq<char>| strip(l)),
                    ..self@
                },
                r.0@,
                r.1,
            ),
    {
        let mut this = self;
        let ghost old_buffer = lines_view(this.buffer@);
        let mut i: usize = 0;
        while i < lines.len()
            invariant
                i <= lines.len(),
                this.emitted <= this.buffer.len(),
                this.expanded == self.expanded,
                this.emitted == self.emitted,
                this.width == self.width,
                lines_view(this.buffer@) == old_buffer + lines_view(lines@).map_values(
                    |l: Seq<char>| strip(l),
                ).take(i as int),
            decreases lines.len() - i,
        {
            let s = strip_escapes(lines[i].as_str());
            let ghost prev = lines_view(this.buffer@);
            this.buffer.push(s);
            proof {
                assert(lines_view(lines@).map_values(|l: Seq<char>| strip(l)).take(i + 1)
                    =~= lines_view(lines@).map_values(|l: Seq<char>| strip(l)).take(i as int).push(
                    strip(lines@[i as int]@)));
                assert(lines_view(this.buffer@) =~= prev.push(strip(lines@[i as int]@)));
            }
            i += 1;
        }
        assert(lines_view(lines@).map_values(|l: Seq<char>| strip(l)).take(lines.len() as int)
            =~= lines_view(lines@).map_values(|l: Seq<char>| strip(l)));
        this.advance()
    }

    /// Switches between collapsed and expanded, and gives the frame to draw.
    pub fn toggle(self) -> (r: (Self, Frame))
        requires
            self.wf(),
        ensures
            r.0.wf(),
            advanced(LogModel { expanded: !self@.expanded, ..self@ }, r.0@, r.1),
    {
        let mut this = self;
        this.expanded = !this.expanded;
        this.advance()
    }

    /// The frame to draw for the current state.
    pub fn advance(self) -> (r: (Self, Frame))
        requires
            self.wf(),
        ensures
            r.0.wf(),
            advanced(self@, r.0@, r.1),
    {
        let mut this = self;
        if this.expanded {
            let mut commit: Vec<String> = Vec::new();
            let mut k = this.emitted;
            while k < this.buffer.len()
                invariant
                    this.emitted <= k <= this.buffer.len(),
                    lines_view(commit@) == lines_view(this.buffer@).subrange(this.emitted as int, k as int),
                decreases this.buffer.len() - k,
            {
                let c = this.buffer[k].clone();
                let ghost prev = commit@;
                commit.push(c);
                proof {
                    assert(commit@ == prev.push(c));
                    assert(lines_view(commit@) =~= lines_view(prev).push(c@));
                    assert(lines_view(commit@) =~= lines_view(this.buffer@).subrange(this.emitted as int, k + 1));
                }
                k += 1;
            }
            let ghost before = this@;
            this.emitted = this.buffer.len();
            let mut live: Vec<String> = Vec::new();
            live.push(string_of(chars_of(COLLAPSE_HINT).as_slice()));
            proof {
                assert(lines_view(live@) =~= seq![COLLAPSE_HINT@]);
                assert(lines_view(commit@) =~= before.buffer.skip(before.emitted as int));
            }
            (this, Frame { commit, live })
        } else {
            let mut live = collapsed_window(this.buffer.as_slice(), this.width);
            live.push(string_of(chars_of(EXPAND_HINT).as_slice()));
            proof {
                assert(lines_view(live@) =~= window(this@.buffer, this@.width).push(EXPAND_HINT@));
            }
            (this, Frame { commit: Vec::new(), live })
        }
    }
}

/// `after` and `frame` are what advancing a view in state `before` gives: when
/// expanded, every line not yet printed is committed; when collapsed, the window of
/// the last lines is drawn; either way a hint line follows.
pub open spec fn advanced(before: LogModel, after: LogModel, frame: Frame) -> bool {
    if before.expanded {
        &&& after == LogModel { emitted: before.buffer.len(), ..before }
        &&& lines_view(frame.commit@) == before.buffer.skip(before.emitted as int)
        &&& lines_view(frame.live@) == seq![COLLAPSE_HINT@]
    } else {
        &&& after == before
        &&& frame.commit@.len() == 0
        &&& lines_view(frame.live@) == window(before.buffer, before.width).push(EXPAND_HINT@)
    }
}

/// A key press read from the terminal.
#[derive(Clone, Copy)]
pub enum Key {
    Char(char),
    Up,
    Down,
    Enter,
    Backspace,
    Space,
    CtrlC,
    CtrlO,
    Other,
}

/// The key that the bytes `b`, read from the terminal, stand for.
pub open spec fn key_of(b: Seq<u8>) -> Key {
    if b.len() == 0 {
        Key::Other
    } else if b[0] == 3 {
        Key::CtrlC
    } else if b[0] == 15 {
        Key::CtrlO
    } else if b[0] == 10 || b[0] == 13 {
        Key::Enter
    } else if b[0] == 8 || b[0] == 127 {
        Key::Backspace
    } else if b[0] == 32 {
        Key::Space
    } else if b[0] == 27 {
        if b.len() < 2 || b[1] != 91 || b.len() < 3 {
            Key::Other
        } else if b[2] == 65 {
            Key::Up
        } else if b[2] == 66 {
            Key::Down
        } else {
            Key::Other
        }
    } else if 33 <= b[0] <= 126 {
        Key::Char(b[0] as char)
    } else {
        Key::Other
    }
}

/// How many of the bytes `b` reading one key takes.
pub open spec fn key_len_of(b: Seq<u8>) -> nat {
    if b.len() == 0 {
        0
    } else if b[0] != 27 || b.len() == 1 {
        1
    } else if b[1] != 91 || b.len() == 2 {
        2
    } else {
        3
    }
}

/// Decodes one key press from the bytes read from the terminal: control keys, the
/// up and down arrows (`ESC [ A`, `ESC [ B`) and printable ASCII characters.
pub fn next_key(input: &[u8]) -> (r: Key)
    ensures
        r == key_of(input@),
{
    if input.len() == 0 {
        return Key::Other;
    }
    let b = input[0];
    if b == 3 {
        Key::CtrlC
    } else if b == 15 {
        Key::CtrlO
    } else if b == 10 || b == 13 {
        Key::Enter
    } else if b == 8 || b == 127 {
        Key::Backspace
    } else if b == 32 {
        Key::Space
    } else if b == 27 {
        if input.len() < 2 || input[1] != 91 || input.len() < 3 {
            Key::Other
        } else if input[2] == 65 {
            Key::Up
        } else if input[2] == 66 {
            Key::Down
        } else {
            Key::Other
        }
    } else if 33 <= b && b <= 126 {
        Key::Char(b as char)
    } else {
        Key::Other
    }
}

/// How many bytes of `input` the key at its start takes.
pub fn key_len(input: &[u8]) -> (r: usize)
    ensures
        r == key_len_of(input@),
{
    if input.len() == 0 {
        0
    } else if input[0] != 27 || input.len() == 1 {
        1
    } else if input[1] != 91 || input.len() == 2 {
        2
    } else {
        3
    }
}

/// Whether a key whose bytes so far are `read` needs another byte.
pub fn key_wants_more(read: &[u8]) -> (r: bool)
    ensures
        r == (key_len_of(read@) == read@.len() && (read@.len() == 0 || (read@[0] == 27 && (
        read@.len() == 1 || (read@.len() == 2 && read@[1] == 91))))),
{
    read.len() == 0 || (read[0] == 27 && (read.len() == 1 || (read.len() == 2 && read[1] == 91)))
}

/// `ESC [ n A`: move the cursor `n` lines up; nothing for no lines.
pub open spec fn cursor_up(n: nat) -> Seq<char> {
    if n > 0 {
        seq!['\x1b', '['] + decimal(n) + seq!['A']
    } else {
        Seq::empty()
    }
}

/// Each line cleared, written and ended.
pub open spec fn frame_lines(ls: Seq<Seq<char>>) -> Seq<char>
    decreases ls.len(),
{
    if ls.len() == 0 {
        Seq::empty()
    } else {
        frame_lines(ls.drop_last()) + CLEAR_LINE@ + seq!['\r'] + ls.last() + seq!['\r', '\n']
    }
}

/// `k` cleared lines.
pub open spec fn blank_lines(k: nat) -> Seq<char>
    decreases k,
{
    if k == 0 {
        Seq::empty()
    } else {
        blank_lines((k - 1) as nat) + CLEAR_LINE@ + seq!['\r', '\n']
    }
}

/// The text that draws a frame over the `prev` live lines drawn before.
pub open spec fn frame_output(commit: Seq<Seq<char>>, live: Seq<Seq<char>>, prev: nat) -> Seq<char> {
    let written = commit.len() + live.len();
    cursor_up(prev) + frame_lines(commit + live) + if prev > written {
        blank_lines((prev - written) as nat) + cursor_up((prev - written) as nat)
    } else {
        Seq::empty()
    }
}

fn push_cursor_up(out: &mut Vec<char>, n: usize)
    ensures
        final(out)@ == old(out)@ + cursor_up(n as nat),
{
    if n > 0 {
        out.push('\x1b');
        out.push('[');
        push_decimal(out, n);
        out.push('A');
        assert(final(out)@ =~= old(out)@ + cursor_up(n as nat));
    }
}

fn push_frame_line(out: &mut Vec<char>, line: &String)
    ensures
        final(out)@ == old(out)@ + CLEAR_LINE@ + seq!['\r'] + line@ + seq!['\r', '\n'],
{
    push_str(out, CLEAR_LINE);
    out.push('\r');
    push_str(out, line.as_str());
    out.push('\r');
    out.push('\n');
    assert(final(out)@ =~= old(out)@ + CLEAR_LINE@ + seq!['\r'] + line@ + seq!['\r', '\n']);
}

/// The text that draws `frame` over the `prev_live` live lines drawn before, and the
/// number of live lines it leaves for the next frame to redraw.
pub fn write_frame(frame: &Frame, prev_live: usize) -> (r: (String, usize))
    ensures
        r.0@ == frame_output(lines_view(frame.commit@), lines_view(frame.live@), prev_live as nat),
        r.1 == frame.live.len(),
{
    let ghost all = lines_view(frame.commit@) + lines_view(frame.live@);
    let mut out: Vec<char> = Vec::new();
    push_cursor_up(&mut out, prev_live);
    let ghost head = out@;
    let mut i: usize = 0;
    while i < frame.commit.len()
        invariant
            i <= frame.commit.len(),
            all == lines_view(frame.commit@) + lines_view(frame.live@),
            out@ == head + frame_lines(all.take(i as int)),
        decreases frame.commit.len() - i,
    {
        push_frame_line(&mut out, &frame.commit[i]);
        proof {
            assert(all.take(i + 1).drop_last() =~= all.take(i as int));
        }
        i += 1;
    }
    let mut j: usize = 0;
    while j < frame.live.len()
        invariant
            j <= frame.live.len(),
            all == lines_view(frame.commit@) + lines_view(frame.live@),
            out@ == head + frame_lines(all.take(frame.commit.len() + j)),
        decreases frame.live.len() - j,
    {
        push_frame_line(&mut out, &frame.live[j]);
        proof {
            assert(all.take(frame.commit.len() + j + 1).drop_last() =~= all.take(frame.commit.len() + j));
        }
        j += 1;
    }
    assert(all.take(frame.commit.len() + frame.live.len()) =~= all);
    if prev_live > frame.commit.len() && prev_live - frame.commit.len() > frame.live.len() {
        let extra = prev_live - frame.commit.len() - frame.live.len();
        let ghost mid = out@;
        let mut k: usize = 0;
        while k < extra
            invariant
                k <= extra,
                out@ == mid + blank_lines(k as nat),
            decreases extra - k,
        {
            push_str(&mut out, CLEAR_LINE);
            out.push('\r');
            out.push('\n');
            assert(out@ =~= mid + blank_lines((k + 1) as nat));
            k += 1;
        }
        push_cursor_up(&mut out, extra);
    }
    (string_of(out.as_slice()), frame.live.len())
}

/// Rows of items shown at once by the select views.
pub const VIEWPORT: usize = 10;
pub const SEPARATOR: &'static str = "──────────────────────────────────────";
pub const INVERT: &'static str = "\x1b[7m";
pub const RESET: &'static str = "\x1b[0m";
/// Lines from the end of a select frame back to its first line.
pub const REDRAW_UP: usize = 13;

/// The score of item `i` for `query`.
pub open spec fn item_score(items: Seq<String>, query: Seq<char>, i: int) -> Option<int> {
    score_spec(encode_utf8(items[i]@), encode_utf8(query))
}

/// Item `x` is listed before item `y`: it scores higher, or scores the same and comes first.
pub open spec fn ranks_before(items: Seq<String>, query: Seq<char>, x: int, y: int) -> bool {
    let a = item_score(items, query, x)->0;
    let b = item_score(items, query, y)->0;
    a > b || (a == b && x < y)
}

pub open spec fn in_order(items: Seq<String>, query: Seq<char>, r: Seq<usize>) -> bool {
    forall|a: int, b: int|
        0 <= a < b < r.len() ==> #[trigger] ranks_before(items, query, r[a] as int, r[b] as int)
}

pub open spec fn listed(r: Seq<usize>, i: int) -> bool {
    exists|k: int| 0 <= k < r.len() && r[k] == i
}

/// `r` lists the indices of the items that match `query`, best match first, items of
/// equal score in their own order.
pub open spec fn ranked(items: Seq<String>, query: Seq<char>, r: Seq<usize>) -> bool {
    &&& forall|k: int|
        0 <= k < r.len() ==> #[trigger] r[k] < items.len() && item_score(items, query, r[k] as int) is Some
    &&& forall|i: int|
        0 <= i < items.len() && #[trigger] item_score(items, query, i) is Some ==> listed(r, i)
    &&& in_order(items, query, r)
}

/// The ranking of the items for `query`.
pub open spec fn ranking(items: Seq<String>, query: Seq<char>) -> Seq<usize> {
    choose|r: Seq<usize>| ranked(items, query, r)
}

proof fn lemma_ranked_unique(items: Seq<String>, query: Seq<char>, r1: Seq<usize>, r2: Seq<usize>)
    requires
        in_order(items, query, r1),
        in_order(items, query, r2),
        forall|x: int| listed(r1, x) <==> listed(r2, x),
    ensures
        r1 == r2,
    decreases r1.len() + r2.len(),
{
    if r1.len() == 0 {
        if r2.len() > 0 {
            assert(listed(r2, r2[0] as int));
        }
        assert(r1 =~= r2);
    } else if r2.len() == 0 {
        assert(listed(r1, r1[0] as int));
    } else {
        let x1 = r1[0] as int;
        let x2 = r2[0] as int;
        assert(listed(r1, x1));
        assert(listed(r2, x2));
        let j = choose|k: int| 0 <= k < r2.len() && r2[k] == x1;
        let j1 = choose|k: int| 0 <= k < r1.len() && r1[k] == x2;
        if j > 0 {
            assert(ranks_before(items, query, r2[0] as int, r2[j] as int));
        }
        if j1 > 0 {
            assert(ranks_before(items, query, r1[0] as int, r1[j1] as int));
        }
        assert(x1 == x2);
        let t1 = r1.drop_first();
        let t2 = r2.drop_first();
        assert forall|a: int, b: int| 0 <= a < b < t1.len() implies #[trigger] ranks_before(
            items,
            query,
            t1[a] as int,
            t1[b] as int,
        ) by {
            assert(ranks_before(items, query, r1[a + 1] as int, r1[b + 1] as int));
        }
        assert forall|a: int, b: int| 0 <= a < b < t2.len() implies #[trigger] ranks_before(
            items,
            query,
            t2[a] as int,
            t2[b] as int,
        ) by {
            assert(ranks_before(items, query, r2[a + 1] as int, r2[b + 1] as int));
        }
        assert forall|x: int| listed(t1, x) <==> listed(t2, x) by {
            if listed(t1, x) {
                let k = choose|k: int| 0 <= k < t1.len() && t1[k] == x;
                assert(r1[k + 1] == x);
                assert(listed(r1, x));
                let k2 = choose|k: int| 0 <= k < r2.len() && r2[k] == x;
                assert(ranks_before(items, query, r1[0] as int, r1[k + 1] as int));
                if k2 == 0 {
                    assert(false);
                }
                assert(t2[k2 - 1] == x);
            }
            if listed(t2, x) {
                let k = choose|k: int| 0 <= k < t2.len() && t2[k] == x;
                assert(r2[k + 1] == x);
                assert(listed(r2, x));
                let k1 = choose|k: int| 0 <= k < r1.len() && r1[k] == x;
                assert(ranks_before(items, query, r2[0] as int, r2[k + 1] as int));
                if k1 == 0 {
                    assert(false);
                }
                assert(t1[k1 - 1] == x);
            }
        }
        lemma_ranked_unique(items, query, t1, t2);
        assert(r1 =~= seq![r1[0]] + t1);
        assert(r2 =~= seq![r2[0]] + t2);
    }
}

proof fn lemma_ranking(items: Seq<String>, query: Seq<char>, r: Seq<usize>)
    requires
        ranked(items, query, r),
    ensures
        ranking(items, query) == r,
{
    let c = ranking(items, query);
    assert(ranked(items, query, c));
    assert forall|x: int| listed(c, x) <==> listed(r, x) by {
        if listed(c, x) {
            let k = choose|k: int| 0 <= k < c.len() && c[k] == x;
            assert(c[k] < items.len() && item_score(items, query, c[k] as int) is Some);
        }
        if listed(r, x) {
            let k = choose|k: int| 0 <= k < r.len() && r[k] == x;
            assert(r[k] < items.len() && item_score(items, query, r[k] as int) is Some);
        }
    }
    lemma_ranked_unique(items, query, c, r);
}

/// The indices of the items that match `query`, best match first.
pub fn filtered_indices(items: &[String], query: &str) -> (r: Vec<usize>)
    requires
        query@.len() <= MAX_QUERY_CHARS,
    ensures
        r@ == ranking(items@, query@),
        ranked(items@, query@, r@),
{
    let ghost its = items@;
    let ghost q = query@;
    let mut r: Vec<usize> = Vec::new();
    let mut scores: Vec<i32> = Vec::new();
    let mut i: usize = 0;
    while i < items.len()
        invariant
            i <= items.len(),
            its == items@,
            q == query@,
            query@.len() <= MAX_QUERY_CHARS,
            scores.len() == r.len(),
            forall|k: int| 0 <= k < r.len() ==> #[trigger] r@[k] < i && item_score(its, q, r@[k] as int)
                == Some(scores@[k] as int),
            forall|j: int| 0 <= j < i && #[trigger] item_score(its, q, j) is Some ==> listed(r@, j),
            in_order(its, q, r@),
        decreases items.len() - i,
    {
        let sc = score(items[i].as_str(), query);
        if let Some(s) = sc {
            let mut p: usize = 0;
            while p < r.len() && scores[p] >= s
                invariant
                    p <= r.len() == scores.len(),
                    forall|k: int| 0 <= k < p ==> scores@[k] >= s,
                decreases r.len() - p,
            {
                p += 1;
            }
            let ghost old_r = r@;
            let ghost old_s = scores@;
            proof {
                old_r.insert_ensures(p as int, i);
                old_s.insert_ensures(p as int, s);
                assert forall|k: int| p <= k < old_r.len() implies old_s[k] < s by {
                    if k > p {
                        assert(ranks_before(its, q, old_r[p as int] as int, old_r[k] as int));
                    }
                }
            }
            r.insert(p, i);
            scores.insert(p, s);
            proof {
                assert forall|k: int| 0 <= k < r.len() implies #[trigger] r@[k] < i + 1 && item_score(its, q, r@[k] as int)
                    == Some(scores@[k] as int) by {
                    if k < p {
                    } else if k == p {
                    } else {
                        assert(r@[k] == old_r[k - 1]);
                    }
                }
                assert forall|j: int| 0 <= j < i + 1 && #[trigger] item_score(its, q, j) is Some implies listed(r@, j) by {
                    if j == i {
                        assert(r@[p as int] == i);
                    } else {
                        assert(listed(old_r, j));
                        let k = choose|k: int| 0 <= k < old_r.len() && old_r[k] == j;
                        if k < p {
                            assert(r@[k] == j);
                        } else {
                            assert(r@[k + 1] == j);
                        }
                    }
                }
                assert forall|a: int, b: int| 0 <= a < b < r@.len() implies #[trigger] ranks_before(
                    its,
                    q,
                    r@[a] as int,
                    r@[b] as int,
                ) by {
                    let oa = if a < p { a } else { a - 1 };
                    let ob = if b < p { b } else { b - 1 };
                    if a == p {
                        assert(old_s[ob] < s);
                    } else if b == p {
                        assert(old_s[oa] >= s);
                        assert(old_r[oa] < i);
                    } else {
                        assert(ranks_before(its, q, old_r[oa] as int, old_r[ob] as int));
                    }
                }
            }
        } else {
            proof {
                assert forall|j: int| 0 <= j < i + 1 && #[trigger] item_score(its, q, j) is Some implies listed(r@, j) by {
                    if j == i {
                        assert(false);
                    }
                }
            }
        }
        i += 1;
    }
    proof {
        lemma_ranking(its, q, r@);
    }
    r
}

pub open spec fn opt_seq(selected: Option<&[bool]>) -> Option<Seq<bool>> {
    match selected {
        Some(s) => Some(s@),
        None => None,
    }
}

/// How many of `s` are set.
pub open spec fn count_set(s: Seq<bool>) -> nat
    decreases s.len(),
{
    if s.len() == 0 {
        0
    } else {
        count_set(s.drop_last()) + if s.last() {
            1nat
        } else {
            0nat
        }
    }
}

/// The row of one item: highlighted at the cursor, with a check box when items are selected.
pub open spec fn item_row(name: Seq<char>, at_cursor: bool, check: Option<bool>) -> Seq<char> {
    match check {
        Some(c) => {
            let tick = if c {
                "[x]"@
            } else {
                "[ ]"@
            };
            if at_cursor {
                INVERT@ + "> "@ + tick + " "@ + name + RESET@ + "\n"@
            } else {
                "  "@ + tick + " "@ + name + "\n"@
            }
        },
        None => if at_cursor {
            INVERT@ + "> "@ + name + RESET@ + "\n"@
        } else {
            "  "@ + name + "\n"@
        },
    }
}

/// The first `k` rows of the viewport.
pub open spec fn viewport_rows(
    cursor: nat,
    scroll: nat,
    items: Seq<String>,
    fi: Seq<usize>,
    selected: Option<Seq<bool>>,
    k: nat,
) -> Seq<char>
    decreases k,
{
    if k == 0 {
        Seq::empty()
    } else {
        let at = scroll + k - 1;
        viewport_rows(cursor, scroll, items, fi, selected, (k - 1) as nat) + CLEAR_LINE@ + "\r"@
            + if at < fi.len() {
            let orig = fi[at] as int;
            item_row(
                items[orig]@,
                at == cursor,
                match selected {
                    Some(sel) => Some(sel[orig]),
                    None => None,
                },
            )
        } else {
            "\n"@
        }
    }
}

/// The hint line at the bottom of a select frame.
pub open spec fn hint_line(shown: nat, total: nat, selected: Option<Seq<bool>>) -> Seq<char> {
    decimal(shown) + "/"@ + decimal(total) + match selected {
        Some(sel) => " selected:"@ + decimal(count_set(sel))
            + "  ↑↓ move  Space toggle  Enter confirm  Ctrl-C cancel"@,
        None => "  ↑↓ move  Enter select  Ctrl-C cancel"@,
    }
}

/// The text that draws a select view, `up` lines above the cursor.
pub open spec fn select_frame(
    label: Seq<char>,
    query: Seq<char>,
    cursor: nat,
    scroll: nat,
    items: Seq<String>,
    fi: Seq<usize>,
    selected: Option<Seq<bool>>,
    up: nat,
) -> Seq<char> {
    cursor_up(up) + CLEAR_LINE@ + "\r"@ + label + ": "@ + query + "█\n"@ + CLEAR_LINE@ + "\r"@
        + SEPARATOR@ + "\n"@ + viewport_rows(cursor, scroll, items, fi, selected, VIEWPORT as nat)
        + CLEAR_LINE@ + "\r"@ + SEPARATOR@ + "\n"@ + CLEAR_LINE@ + "\r"@ + hint_line(
        fi.len(),
        items.len(),
        selected,
    )
}

fn count_set_exec(s: &[bool]) -> (r: usize)
    ensures
        r == count_set(s@),
{
    let mut n: usize = 0;
    let mut i: usize = 0;
    while i < s.len()
        invariant
            i <= s.len(),
            n == count_set(s@.take(i as int)),
            n <= i,
        decreases s.len() - i,
    {
        proof {
            assert(s@.take(i + 1).drop_last() =~= s@.take(i as int));
        }
        if s[i] {
            n += 1;
        }
        i += 1;
    }
    assert(s@.take(s.len() as int) =~= s@);
    n
}

fn push_item_row(out: &mut Vec<char>, name: &String, at_cursor: bool, check: Option<bool>)
    ensures
        final(out)@ == old(out)@ + item_row(name@, at_cursor, check),
{
    match check {
        Some(c) => {
            if at_cursor {
                push_str(out, INVERT);
                push_str(out, "> ");
            } else {
                push_str(out, "  ");
            }
            if c {
                push_str(out, "[x]");
            } else {
                push_str(out, "[ ]");
            }
            push_str(out, " ");
            push_str(out, name.as_str());
            if at_cursor {
                push_str(out, RESET);
            }
            push_str(out, "\n");
        },
        None => {
            if at_cursor {
                push_str(out, INVERT);
                push_str(out, "> ");
            } else {
                push_str(out, "  ");
            }
            push_str(out, name.as_str());
            if at_cursor {
                push_str(out, RESET);
            }
            push_str(out, "\n");
        },
    }
    assert(final(out)@ =~= old(out)@ + item_row(name@, at_cursor, check));
}

/// The text that draws a select view: the label and query, the items of `fi` in the
/// viewport from `scroll` (the one at `cursor` highlighted, with check boxes where
/// `selected` is given) and a hint line.
pub fn render_select_frame(
    label: &str,
    query: &str,
    cursor: usize,
    scroll: usize,
    items: &[String],
    fi: &[usize],
    selected: Option<&[bool]>,
    up: usize,
) -> (r: String)
    requires
        forall|k: int| 0 <= k < fi.len() ==> #[trigger] fi@[k] < items.len(),
        selected matches Some(sel) ==> sel.len() >= items.len(),
    ensures
        r@ == select_frame(
            label@,
            query@,
            cursor as nat,
            scroll as nat,
            items@,
            fi@,
            opt_seq(selected),
            up as nat,
        ),
{
    let mut out: Vec<char> = Vec::new();
    push_cursor_up(&mut out, up);
    push_str(&mut out, CLEAR_LINE);
    push_str(&mut out, "\r");
    push_str(&mut out, label);
    push_str(&mut out, ": ");
    push_str(&mut out, query);
    push_str(&mut out, "█\n");
    push_str(&mut out, CLEAR_LINE);
    push_str(&mut out, "\r");
    push_str(&mut out, SEPARATOR);
    push_str(&mut out, "\n");
    let ghost head = out@;
    let mut i: usize = 0;
    while i < VIEWPORT
        invariant
            i <= VIEWPORT,
            forall|k: int| 0 <= k < fi.len() ==> #[trigger] fi@[k] < items.len(),
            selected matches Some(sel) ==> sel.len() >= items.len(),
            out@ == head + viewport_rows(cursor as nat, scroll as nat, items@, fi@, opt_seq(selected), i as nat),
        decreases VIEWPORT - i,
    {
        let ghost before = out@;
        push_str(&mut out, CLEAR_LINE);
        push_str(&mut out, "\r");
        if scroll < fi.len() && i < fi.len() - scroll {
            let at = scroll + i;
            let orig = fi[at];
            let check = match selected {
                Some(sel) => Some(sel[orig]),
                None => None,
            };
            push_item_row(&mut out, &items[orig], at == cursor, check);
        } else {
            push_str(&mut out, "\n");
        }
        assert(out@ =~= head + viewport_rows(cursor as nat, scroll as nat, items@, fi@, opt_seq(selected), (i + 1) as nat));
        i += 1;
    }
    push_str(&mut out, CLEAR_LINE);
    push_str(&mut out, "\r");
    push_str(&mut out, SEPARATOR);
    push_str(&mut out, "\n");
    push_str(&mut out, CLEAR_LINE);
    push_str(&mut out, "\r");
    let ghost tail = out@;
    push_decimal(&mut out, fi.len());
    push_str(&mut out, "/");
    push_decimal(&mut out, items.len());
    match selected {
        Some(sel) => {
            let n = count_set_exec(sel);
            push_str(&mut out, " selected:");
            push_decimal(&mut out, n);
            push_str(&mut out, "  ↑↓ move  Space toggle  Enter confirm  Ctrl-C cancel");
        },
        None => {
            push_str(&mut out, "  ↑↓ move  Enter select  Ctrl-C cancel");
        },
    }
    assert(out@ =~= tail + hint_line(fi.len() as nat, items.len() as nat, opt_seq(selected)));
    assert(out@ =~= select_frame(
        label@,
        query@,
        cursor as nat,
        scroll as nat,
        items@,
        fi@,
        opt_seq(selected),
        up as nat,
    ));
    string_of(out.as_slice())
}

/// The text that erases a select view from the terminal.
pub open spec fn erase_text() -> Seq<char> {
    cursor_up(REDRAW_UP as nat) + blank_lines((VIEWPORT + 4) as nat) + cursor_up((VIEWPORT + 4) as nat)
}

/// The text that erases a select view from the terminal.
pub fn erase_select() -> (r: String)
    ensures
        r@ == erase_text(),
{
    let mut out: Vec<char> = Vec::new();
    push_cursor_up(&mut out, REDRAW_UP);
    let ghost mid = out@;
    let total = VIEWPORT + 4;
    let mut k: usize = 0;
    while k < total
        invariant
            k <= total == VIEWPORT + 4,
            out@ == mid + blank_lines(k as nat),
        decreases total - k,
    {
        push_str(&mut out, CLEAR_LINE);
        out.push('\r');
        out.push('\n');
        assert(out@ =~= mid + blank_lines((k + 1) as nat));
        k += 1;
    }
    push_cursor_up(&mut out, total);
    string_of(out.as_slice())
}

/// The query after `key`: backspace drops its last character, a character is added.
pub open spec fn edited_query(query: Seq<char>, key: Key) -> Seq<char> {
    match key {
        Key::Backspace => if query.len() > 0 {
            query.drop_last()
        } else {
            query
        },
        Key::Char(c) => query.push(c),
        _ => query,
    }
}

/// Whether `key` edits the query (and so moves the cursor back to the top).
pub open spec fn edits(key: Key) -> bool {
    key is Backspace || key is Char
}

/// The cursor after `key`, over `n` listed items.
pub open spec fn moved_cursor(cursor: nat, key: Key, n: nat) -> nat {
    let c = if edits(key) {
        0
    } else {
        cursor
    };
    match key {
        Key::Up => if c > 0 {
            (c - 1) as nat
        } else {
            0
        },
        Key::Down => if c + 1 < n {
            c + 1
        } else {
            c
        },
        _ => c,
    }
}

/// The first row shown so that the cursor stays in the viewport.
pub open spec fn scrolled(cursor: nat, scroll: nat) -> nat {
    if cursor < scroll {
        cursor
    } else if cursor >= scroll + VIEWPORT {
        (cursor + 1 - VIEWPORT) as nat
    } else {
        scroll
    }
}

fn edit_query(query: &String, key: Key) -> (r: String)
    ensures
        r@ == edited_query(query@, key),
{
    let mut q = chars_of(query.as_str());
    match key {
        Key::Backspace => {
            if q.len() > 0 {
                q.pop();
            }
        },
        Key::Char(c) => {
            q.push(c);
        },
        _ => {},
    }
    assert(q@ =~= edited_query(query@, key));
    string_of(q.as_slice())
}

fn move_cursor(cursor: usize, scroll: usize, key: Key, n: usize) -> (r: (usize, usize))
    ensures
        r.0 == moved_cursor(cursor as nat, key, n as nat),
        r.1 == scrolled(r.0 as nat, if edits(key) { 0 } else { scroll as nat }),
{
    let (mut c, mut sc) = match key {
        Key::Backspace | Key::Char(_) => (0usize, 0usize),
        _ => (cursor, scroll),
    };
    match key {
        Key::Up => {
            if c > 0 {
                c = c - 1;
            }
        },
        Key::Down => {
            if n > 0 && c < n - 1 {
                c = c + 1;
            }
        },
        _ => {},
    }
    if c < sc {
        sc = c;
    } else if c - sc >= VIEWPORT {
        sc = c - (VIEWPORT - 1);
    }
    (c, sc)
}

/// A list to pick one item from, filtered by a typed query.
pub struct SelectView<'a> {
    pub label: &'a str,
    pub items: &'a [String],
    pub query: String,
    pub cursor: usize,
    pub scroll: usize,
}

pub enum SelectResult<'a> {
    /// Still picking: the view and the frame to draw.
    Continue(SelectView<'a>, String),
    /// Picked (the item's index) or cancelled, and the text that erases the view.
    Done(Option<usize>, String),
}

impl<'a> SelectView<'a> {
    /// A view of `items` with an empty query, and its first frame.
    pub fn new(label: &'a str, items: &'a [String]) -> (r: (Self, String))
        ensures
            r.0.label == label,
            r.0.items == items,
            r.0.query@.len() == 0,
            r.0.cursor == 0,
            r.0.scroll == 0,
            r.1@ == select_frame(label@, Seq::empty(), 0, 0, items@, Seq::new(items.len() as nat, |i: int| i as usize), None, 0),
    {
        let mut fi: Vec<usize> = Vec::new();
        let mut i: usize = 0;
        while i < items.len()
            invariant
                i <= items.len(),
                fi@ == Seq::new(i as nat, |k: int| k as usize),
            decreases items.len() - i,
        {
            fi.push(i);
            assert(fi@ =~= Seq::new((i + 1) as nat, |k: int| k as usize));
            i += 1;
        }
        let frame = render_select_frame(label, "", 0, 0, items, fi.as_slice(), None, 0);
        let empty: Vec<char> = Vec::new();
        proof { reveal_strlit(""); }
        (SelectView { label, items, query: string_of(empty.as_slice()), cursor: 0, scroll: 0 }, frame)
    }

    /// The view after a key press: Ctrl-C cancels, Enter picks the item at the cursor,
    /// the arrows move the cursor, and other characters edit the query.
    pub fn on_key(self, key: Key) -> (r: SelectResult<'a>)
        requires
            self.query@.len() < MAX_QUERY_CHARS,
        ensures
            ({
                let q = edited_query(self.query@, key);
                let fi = ranking(self.items@, q);
                let c0 = if edits(key) { 0 } else { self.cursor as nat };
                let c = moved_cursor(self.cursor as nat, key, fi.len());
                let sc = scrolled(c, if edits(key) { 0 } else { self.scroll as nat });
                if key is CtrlC {
                    r matches SelectResult::Done(None, e) && e@ == erase_text()
                } else if key is Enter {
                    r matches SelectResult::Done(pick, e) && e@ == erase_text() && pick == (if c0
                        < fi.len() {
                        Some(fi[c0 as int])
                    } else {
                        None
                    })
                } else {
                    r matches SelectResult::Continue(v, frame) && v.label == self.label && v.items
                        == self.items && v.query@ == q && v.cursor == c && v.scroll == sc && frame@
                        == select_frame(self.label@, q, c, sc, self.items@, fi, None, REDRAW_UP as nat)
                }
            }),
    {
        if let Key::CtrlC = key {
            return SelectResult::Done(None, erase_select());
        }
        let query = edit_query(&self.query, key);
        let fi = filtered_indices(self.items, query.as_str());
        if let Key::Enter = key {
            let c0 = match key {
                Key::Backspace | Key::Char(_) => 0,
                _ => self.cursor,
            };
            let pick = if c0 < fi.len() { Some(fi[c0]) } else { None };
            return SelectResult::Done(pick, erase_select());
        }
        let (cursor, scroll) = move_cursor(self.cursor, self.scroll, key, fi.len());
        let frame = render_select_frame(
            self.label,
            query.as_str(),
            cursor,
            scroll,
            self.items,
            fi.as_slice(),
            None,
            REDRAW_UP,
        );
        SelectResult::Continue(SelectView { label: self.label, items: self.items, query, cursor, scroll }, frame)
    }
}

/// The indices below `n` whose entry in `sel` is set, in order.
pub open spec fn set_indices(sel: Seq<bool>, n: nat) -> Seq<usize>
    decreases n,
{
    if n == 0 {
        Seq::empty()
    } else {
        set_indices(sel, (n - 1) as nat) + if sel[n - 1] {
            seq![(n - 1) as usize]
        } else {
            Seq::<usize>::empty()
        }
    }
}

/// The selection after `key` with the cursor at `c` over the listed items `fi`: space
/// toggles the item at the cursor.
pub open spec fn toggled(sel: Seq<bool>, key: Key, c: nat, fi: Seq<usize>) -> Seq<bool> {
    if key is Space && c < fi.len() {
        sel.update(fi[c as int] as int, !sel[fi[c as int] as int])
    } else {
        sel
    }
}

/// A list to pick several items from, filtered by a typed query.
pub struct MultiSelectView<'a> {
    pub label: &'a str,
    pub items: &'a [String],
    pub query: String,
    pub cursor: usize,
    pub scroll: usize,
    pub selected: Vec<bool>,
}

pub enum MultiSelectResult<'a> {
    /// Still picking: the view and the frame to draw.
    Continue(MultiSelectView<'a>, String),
    /// The indices picked, or cancelled, and the text that erases the view.
    Done(Option<Vec<usize>>, String),
}

impl<'a> MultiSelectView<'a> {
    /// A view of `items` with nothing selected and an empty query, and its first frame.
    pub fn new(label: &'a str, items: &'a [String]) -> (r: (Self, String))
        ensures
            r.0.label == label,
            r.0.items == items,
            r.0.query@.len() == 0,
            r.0.cursor == 0,
            r.0.scroll == 0,
            r.0.selected@ == Seq::new(items.len() as nat, |i: int| false),
            r.1@ == select_frame(
                label@,
                Seq::empty(),
                0,
                0,
                items@,
                Seq::new(items.len() as nat, |i: int| i as usize),
                Some(Seq::new(items.len() as nat, |i: int| false)),
                0,
            ),
    {
        let mut fi: Vec<usize> = Vec::new();
        let mut selected: Vec<bool> = Vec::new();
        let mut i: usize = 0;
        while i < items.len()
            invariant
                i <= items.len(),
                fi@ == Seq::new(i as nat, |k: int| k as usize),
                selected@ == Seq::new(i as nat, |k: int| false),
            decreases items.len() - i,
        {
            fi.push(i);
            selected.push(false);
            assert(fi@ =~= Seq::new((i + 1) as nat, |k: int| k as usize));
            assert(selected@ =~= Seq::new((i + 1) as nat, |k: int| false));
            i += 1;
        }
        let frame = render_select_frame(label, "", 0, 0, items, fi.as_slice(), Some(selected.as_slice()), 0);
        proof { reveal_strlit(""); }
        let empty: Vec<char> = Vec::new();
        (MultiSelectView { label, items, query: string_of(empty.as_slice()), cursor: 0, scroll: 0, selected }, frame)
    }

    /// The view after a key press: Ctrl-C cancels, Enter gives the selected items, space
    /// toggles the item at the cursor, the arrows move the cursor, and other characters
    /// edit the query.
    pub fn on_key(self, key: Key) -> (r: MultiSelectResult<'a>)
        requires
            self.query@.len() < MAX_QUERY_CHARS,
            self.selected.len() >= self.items.len(),
        ensures
            ({
                let q = edited_query(self.query@, key);
                let fi = ranking(self.items@, q);
                let c0 = if edits(key) { 0 } else { self.cursor as nat };
                let c = moved_cursor(self.cursor as nat, key, fi.len());
                let sc = scrolled(c, if edits(key) { 0 } else { self.scroll as nat });
                let sel = toggled(self.selected@, key, c0, fi);
                if key is CtrlC {
                    r matches MultiSelectResult::Done(None, e) && e@ == erase_text()
                } else if key is Enter {
                    r matches MultiSelectResult::Done(Some(picked), e) && e@ == erase_text()
                        && picked@ == set_indices(self.selected@, self.items.len() as nat)
                } else {
                    r matches MultiSelectResult::Continue(v, frame) && v.label == self.label
                        && v.items == self.items && v.query@ == q && v.cursor == c && v.scroll == sc
                        && v.selected@ == sel && frame@ == select_frame(
                        self.label@,
                        q,
                        c,
                        sc,
                        self.items@,
                        fi,
                        Some(sel),
                        REDRAW_UP as nat,
                    )
                }
            }),
    {
        if let Key::CtrlC = key {
            return MultiSelectResult::Done(None, erase_select());
        }
        let query = edit_query(&self.query, key);
        let fi = filtered_indices(self.items, query.as_str());
        if let Key::Enter = key {
            let mut picked: Vec<usize> = Vec::new();
            let mut i: usize = 0;
            while i < self.items.len()
                invariant
                    i <= self.items.len() <= self.selected.len(),
                    picked@ == set_indices(self.selected@, i as nat),
                decreases self.items.len() - i,
            {
                if self.selected[i] {
                    picked.push(i);
                }
                assert(picked@ =~= set_indices(self.selected@, (i + 1) as nat));
                i += 1;
            }
            return MultiSelectResult::Done(Some(picked), erase_select());
        }
        let mut selected = self.selected;
        if let Key::Space = key {
            if self.cursor < fi.len() {
                let orig = fi[self.cursor];
                let flag = selected[orig];
                selected.set(orig, !flag);
            }
        }
        let (cursor, scroll) = move_cursor(self.cursor, self.scroll, key, fi.len());
        let frame = render_select_frame(
            self.label,
            query.as_str(),
            cursor,
            scroll,
            self.items,
            fi.as_slice(),
            Some(selected.as_slice()),
            REDRAW_UP,
        );
        MultiSelectResult::Continue(
            MultiSelectView { label: self.label, items: self.items, query, cursor, scroll, selected },
            frame,
        )
    }
}

/// A key keeps a list view's cursor on a listed item (or at the top) and inside the
/// rows shown: where that held before the key, it holds after it, for the list that the
/// edited query gives.
pub proof fn law_cursor_stays_in_view(items: Seq<String>, query: Seq<char>, cursor: nat, scroll: nat, key: Key)
    requires
        cursor == 0 || cursor < ranking(items, query).len(),
        scroll <= cursor < scroll + VIEWPORT,
    ensures
        ({
            let fi = ranking(items, edited_query(query, key));
            let c = moved_cursor(cursor, key, fi.len());
            let sc = scrolled(c, if edits(key) { 0 } else { scroll });
            &&& c == 0 || c < fi.len()
            &&& sc <= c < sc + VIEWPORT
        }),
{
    if !edits(key) {
        assert(edited_query(query, key) == query);
    }
}

/// Frames print each log line once and in order: where the lines printed so far are the
/// first `emitted` lines of the buffer that a step starts from (as `on_lines`, `toggle` and
/// `advance` keep it, appending to the buffer or flipping `expanded` only), the lines
/// printed after the step's frame are the first `emitted` lines of the new state, and
/// all of the buffer where the log is expanded.
pub proof fn law_frames_commit_each_line_once(pre: LogModel, after: LogModel, frame: Frame, printed: Seq<Seq<char>>)
    requires
        pre.emitted <= pre.buffer.len(),
        printed == pre.buffer.take(pre.emitted as int),
        advanced(pre, after, frame),
    ensures
        after.buffer == pre.buffer,
        after.emitted <= after.buffer.len(),
        printed + lines_view(frame.commit@) == after.buffer.take(after.emitted as int),
        after.expanded ==> printed + lines_view(frame.commit@) == after.buffer,
{
    if pre.expanded {
        assert(pre.buffer.take(pre.emitted as int) + pre.buffer.skip(pre.emitted as int) =~= pre.buffer);
        assert(after.buffer.take(after.emitted as int) =~= after.buffer);
    } else {
        assert(lines_view(frame.commit@) =~= Seq::<Seq<char>>::empty());
        assert(printed + Seq::<Seq<char>>::empty() =~= printed);
    }
}

} // verus!
