//! Screen resolutions, read from what `kscreen-doctor` prints.
//!
//! The daemon runs `kscreen-doctor --json` first and, when that gives no
//! monitor, `kscreen-doctor --outputs`; this module turns either output into
//! the list of enabled monitors. Text output looks like
//!
//! ```text
//! Output: 1 DP-1 enabled connected primary geometry 0,0,2560x1440 resolution 2560x1440@60
//! Output: 2 HDMI-1 disabled disconnected
//! ```
//!
//! or, from other versions,
//!
//! ```text
//! Output: 1 eDP-1 enabled connected primary
//!   modes:
//!     1: 1920x1080@60 *current
//! ```

use vstd::prelude::*;

use crate::text::{
    CharClass, chars_of, class_fn, contains_seq, find_char, find_first, lemma_split_step, lines,
    non_empty, parse_u32, parse_u32_range, range_contains, range_starts_with, split_by,
    starts_with, string_of, trim, trim_range, words,
};

verus! {

/// A connected, enabled monitor.
#[derive(Debug, Clone)]
pub struct Monitor {
    /// Connector name reported by kscreen-doctor ("DP-1", "HDMI-1").
    pub name: String,
    /// Active width in pixels.
    pub width: u32,
    /// Active height in pixels.
    pub height: u32,
}

/// A monitor as a plain value: connector name, width, height.
pub open spec fn monitor_view(m: Monitor) -> (Seq<char>, u32, u32) {
    (m.name@, m.width, m.height)
}

pub open spec fn monitor_views(ms: Seq<Monitor>) -> Seq<(Seq<char>, u32, u32)> {
    ms.map_values(|m: Monitor| monitor_view(m))
}

// ---- text output ---------------------------------------------------------

/// `"WxH"` with both sides above 100 (smaller numbers are coordinates,
/// not sizes): the text is cut at its first `x`, and each side is read as
/// a `u32`.
pub open spec fn spec_parse_wxh(s: Seq<char>) -> Option<(u32, u32)> {
    let e = find_first(s, class_fn(CharClass::LowerX));
    if e < s.len() {
        match (parse_u32(s.take(e)), parse_u32(s.skip(e + 1))) {
            (Some(w), Some(h)) => if w > 100 && h > 100 {
                Some((w, h))
            } else {
                None
            },
            _ => None,
        }
    } else {
        None
    }
}

/// The resolution that a token names: the part before its first `@`
/// (the refresh rate follows it), read as `WxH`.
pub open spec fn token_resolution(tok: Seq<char>) -> Option<(u32, u32)> {
    spec_parse_wxh(tok.take(find_first(tok, class_fn(CharClass::At))))
}

/// The first of `toks` that names a resolution.
pub open spec fn first_resolution_in(toks: Seq<Seq<char>>) -> Option<(u32, u32)>
    decreases toks.len(),
{
    if toks.len() == 0 {
        None
    } else {
        match token_resolution(toks[0]) {
            Some(r) => Some(r),
            None => first_resolution_in(toks.skip(1)),
        }
    }
}

/// The first resolution on a line, whose tokens are separated by ASCII
/// white space or commas.
pub open spec fn line_resolution(t: Seq<char>) -> Option<(u32, u32)> {
    first_resolution_in(split_by(t, class_fn(CharClass::AsciiWsOrComma)))
}

/// Word `k` of `t`, or the empty text when `t` has fewer words.
pub open spec fn word_at(t: Seq<char>, k: int) -> Seq<char> {
    if 0 <= k < words(t).len() {
        words(t)[k]
    } else {
        Seq::empty()
    }
}

/// Where the scan of the text output stands.
pub struct ScanState {
    /// Monitors found so far.
    pub found: Seq<(Seq<char>, u32, u32)>,
    /// The current `Output:` block is enabled.
    pub in_enabled: bool,
    /// Connector name of the current block.
    pub name: Seq<char>,
    /// Resolution chosen so far for the current block.
    pub candidate: Option<(u32, u32)>,
}

pub open spec fn scan_start() -> ScanState {
    ScanState { found: Seq::empty(), in_enabled: false, name: Seq::empty(), candidate: None }
}

/// The monitors found, with the current block closed.
pub open spec fn flush(st: ScanState) -> Seq<(Seq<char>, u32, u32)> {
    match st.candidate {
        Some(c) => if st.in_enabled {
            st.found.push((st.name, c.0, c.1))
        } else {
            st.found
        },
        None => st.found,
    }
}

/// One line of the text output. A line that starts with `Output:` closes
/// the block before it and opens a new one, enabled when the line contains
/// `enabled`, named by its third word. In an enabled block the first
/// resolution of a line becomes the candidate when the line is marked
/// `*current`, or when there is no candidate yet.
pub open spec fn scan_line(st: ScanState, line: Seq<char>) -> ScanState {
    let t = trim(line);
    let st1 = if starts_with(t, "Output:"@) {
        ScanState {
            found: flush(st),
            in_enabled: contains_seq(t, "enabled"@),
            name: word_at(t, 2),
            candidate: None,
        }
    } else {
        st
    };
    if !st1.in_enabled {
        st1
    } else {
        match line_resolution(t) {
            None => st1,
            Some(r) => ScanState {
                candidate: if contains_seq(t, "*current"@) || st1.candidate is None {
                    Some(r)
                } else {
                    st1.candidate
                },
                ..st1
            },
        }
    }
}

pub open spec fn scan_lines(st: ScanState, ls: Seq<Seq<char>>) -> ScanState
    decreases ls.len(),
{
    if ls.len() == 0 {
        st
    } else {
        scan_lines(scan_line(st, ls[0]), ls.skip(1))
    }
}

/// The enabled monitors that the text output of `kscreen-doctor --outputs`
/// describes, in order.
pub open spec fn spec_parse_all_monitors(text: Seq<char>) -> Seq<(Seq<char>, u32, u32)> {
    monitors_of_lines(lines(text))
}

/// Reads `"WxH"`; `None` unless both sides are numbers above 100.
pub fn parse_wxh(s: &str) -> (r: Option<(u32, u32)>)
    ensures
        r == spec_parse_wxh(s@),
{
    let v = chars_of(s);
    assert(v@.subrange(0, v@.len() as int) =~= s@);
    wxh_in(&v, 0, v.len())
}

fn wxh_in(v: &Vec<char>, start: usize, end: usize) -> (r: Option<(u32, u32)>)
    requires
        start <= end <= v@.len(),
    ensures
        r == spec_parse_wxh(v@.subrange(start as int, end as int)),
{
    let ghost s = v@.subrange(start as int, end as int);
    let e = find_char(v, start, end, CharClass::LowerX);
    if e == end {
        return None;
    }
    proof {
        assert(s.take(e - start) =~= v@.subrange(start as int, e as int));
        assert(s.skip(e - start + 1) =~= v@.subrange(e + 1, end as int));
    }
    let w = parse_u32_range(v, start, e);
    let h = parse_u32_range(v, e + 1, end);
    match (w, h) {
        (Some(w), Some(h)) => {
            if w > 100 && h > 100 {
                Some((w, h))
            } else {
                None
            }
        },
        _ => None,
    }
}

fn token_resolution_in(v: &Vec<char>, start: usize, end: usize) -> (r: Option<(u32, u32)>)
    requires
        start <= end <= v@.len(),
    ensures
        r == token_resolution(v@.subrange(start as int, end as int)),
{
    let ghost s = v@.subrange(start as int, end as int);
    let e = find_char(v, start, end, CharClass::At);
    proof {
        assert(s.take(e - start) =~= v@.subrange(start as int, e as int));
    }
    wxh_in(v, start, e)
}

fn line_resolution_in(v: &Vec<char>, start: usize, end: usize) -> (r: Option<(u32, u32)>)
    requires
        start <= end <= v@.len(),
    ensures
        r == line_resolution(v@.subrange(start as int, end as int)),
{
    let ghost sep = class_fn(CharClass::AsciiWsOrComma);
    let mut pos = start;
    loop
        invariant
            start <= pos <= end <= v@.len(),
            sep == class_fn(CharClass::AsciiWsOrComma),
            line_resolution(v@.subrange(start as int, end as int)) == first_resolution_in(
                split_by(v@.subrange(pos as int, end as int), sep),
            ),
        decreases end - pos,
    {
        let e = find_char(v, pos, end, CharClass::AsciiWsOrComma);
        proof {
            lemma_split_step(v@, pos as int, e as int, end as int, sep);
        }
        let ghost toks = split_by(v@.subrange(pos as int, end as int), sep);
        let r = token_resolution_in(v, pos, e);
        assert(toks[0] == v@.subrange(pos as int, e as int));
        if r.is_some() {
            return r;
        }
        if e == end {
            assert(toks.skip(1).len() == 0);
            assert(first_resolution_in(toks.skip(1)) is None);
            return None;
        }
        assert(toks.skip(1) =~= split_by(v@.subrange(e + 1, end as int), sep));
        pos = e + 1;
    }
}

fn word_at_in(v: &Vec<char>, start: usize, end: usize, k: usize) -> (w: String)
    requires
        start <= end <= v@.len(),
    ensures
        w@ == word_at(v@.subrange(start as int, end as int), k as int),
{
    let ghost sep = class_fn(CharClass::Whitespace);
    let ghost all = words(v@.subrange(start as int, end as int));
    let mut pos = start;
    let mut seen: usize = 0;
    let ghost mut before: Seq<Seq<char>> = Seq::empty();
    loop
        invariant
            start <= pos <= end <= v@.len(),
            sep == class_fn(CharClass::Whitespace),
            all == words(v@.subrange(start as int, end as int)),
            before.len() == seen,
            seen <= k,
            all == before + non_empty(split_by(v@.subrange(pos as int, end as int), sep)),
        decreases end - pos,
    {
        let e = find_char(v, pos, end, CharClass::Whitespace);
        proof {
            lemma_split_step(v@, pos as int, e as int, end as int, sep);
        }
        let ghost toks = split_by(v@.subrange(pos as int, end as int), sep);
        let ghost rest = if e < end {
            split_by(v@.subrange(e + 1, end as int), sep)
        } else {
            Seq::<Seq<char>>::empty()
        };
        assert(toks[0] == v@.subrange(pos as int, e as int));
        assert(toks.skip(1) =~= rest);
        if e > pos {
            assert(non_empty(toks) == seq![toks[0]] + non_empty(rest));
            if seen == k {
                proof {
                    assert(all[k as int] == toks[0]);
                }
                return string_of(vec_slice(v, pos, e).as_slice());
            }
            proof {
                let nb = before.push(toks[0]);
                assert(all =~= nb + non_empty(rest));
                before = nb;
            }
            seen = seen + 1;
        } else {
            assert(non_empty(toks) == non_empty(rest));
        }
        if e == end {
            assert(non_empty(rest) =~= Seq::<Seq<char>>::empty());
            assert(all =~= before);
            return String::new();
        }
        pos = e + 1;
    }
}

/// The characters `start..end` of `v`.
fn vec_slice(v: &Vec<char>, start: usize, end: usize) -> (r: Vec<char>)
    requires
        start <= end <= v@.len(),
    ensures
        r@ == v@.subrange(start as int, end as int),
{
    let mut r: Vec<char> = Vec::new();
    let mut i = start;
    while i < end
        invariant
            start <= i <= end <= v@.len(),
            r@ == v@.subrange(start as int, i as int),
        decreases end - i,
    {
        r.push(v[i]);
        assert(v@.subrange(start as int, i + 1) =~= v@.subrange(start as int, i as int).push(v@[i as int]));
        i = i + 1;
    }
    r
}

/// The exec side of `ScanState`.
struct Scan {
    found: Vec<Monitor>,
    in_enabled: bool,
    name: String,
    candidate: Option<(u32, u32)>,
}

impl Scan {
    spec fn state(&self) -> ScanState {
        ScanState {
            found: monitor_views(self.found@),
            in_enabled: self.in_enabled,
            name: self.name@,
            candidate: self.candidate,
        }
    }

    fn close_block(&mut self)
        ensures
            monitor_views(final(self).found@) == flush(old(self).state()),
    {
        if self.in_enabled {
            match self.candidate {
                Some((w, h)) => {
                    let ghost pre = monitor_views(self.found@);
                    self.found.push(Monitor { name: self.name.clone(), width: w, height: h });
                    assert(monitor_views(self.found@) =~= pre.push((self.name@, w, h)));
                },
                None => {},
            }
        }
    }

    fn line(&mut self, v: &Vec<char>, start: usize, end: usize, kw: &Keywords)
        requires
            start <= end <= v@.len(),
            kw.wf(),
        ensures
            final(self).state() == scan_line(old(self).state(), v@.subrange(start as int, end as int)),
    {
        let (a, b) = trim_range(v, start, end);
        if range_starts_with(v, a, b, &kw.output) {
            self.close_block();
            self.candidate = None;
            self.in_enabled = range_contains(v, a, b, &kw.enabled);
            self.name = word_at_in(v, a, b, 2);
        }
        if !self.in_enabled {
            return;
        }
        match line_resolution_in(v, a, b) {
            None => {},
            Some(r) => {
                if range_contains(v, a, b, &kw.current) || self.candidate.is_none() {
                    self.candidate = Some(r);
                }
            },
        }
    }
}

/// The literal words that the scan looks for.
struct Keywords {
    output: Vec<char>,
    enabled: Vec<char>,
    current: Vec<char>,
}

impl Keywords {
    spec fn wf(&self) -> bool {
        &&& self.output@ == "Output:"@
        &&& self.enabled@ == "enabled"@
        &&& self.current@ == "*current"@
    }

    fn new() -> (k: Self)
        ensures
            k.wf(),
    {
        Keywords { output: chars_of("Output:"), enabled: chars_of("enabled"), current: chars_of("*current") }
    }
}

/// The enabled monitors that the text output of `kscreen-doctor --outputs`
/// describes, with their connector names and resolutions.
pub fn parse_all_monitors(text: &str) -> (ms: Vec<Monitor>)
    ensures
        monitor_views(ms@) == spec_parse_all_monitors(text@),
{
    let v = chars_of(text);
    let n = v.len();
    let kw = Keywords::new();
    let ghost nl = class_fn(CharClass::Newline);
    let mut scan = Scan { found: Vec::new(), in_enabled: false, name: String::new(), candidate: None };
    let mut pos: usize = 0;
    assert(v@.subrange(0, n as int) =~= v@);
    assert(monitor_views(scan.found@) =~= Seq::<(Seq<char>, u32, u32)>::empty());
    assert(scan.state() == scan_start());
    loop
        invariant
            pos <= n == v@.len(),
            kw.wf(),
            nl == class_fn(CharClass::Newline),
            spec_parse_all_monitors(text@) == flush(
                scan_lines(scan.state(), split_by(v@.subrange(pos as int, n as int), nl)),
            ),
        decreases n - pos,
    {
        let e = find_char(&v, pos, n, CharClass::Newline);
        proof {
            lemma_split_step(v@, pos as int, e as int, n as int, nl);
        }
        let ghost ls = split_by(v@.subrange(pos as int, n as int), nl);
        assert(ls[0] == v@.subrange(pos as int, e as int));
        let ghost st0 = scan.state();
        scan.line(&v, pos, e, &kw);
        assert(scan_lines(st0, ls) == scan_lines(scan.state(), ls.skip(1)));
        if e == n {
            assert(ls.skip(1).len() == 0);
            assert(scan_lines(scan.state(), ls.skip(1)) == scan.state());
            scan.close_block();
            return scan.found;
        }
        assert(ls.skip(1) =~= split_by(v@.subrange(e + 1, n as int), nl));
        pos = e + 1;
    }
}


// ---- JSON output ---------------------------------------------------------

/// `kscreen-doctor --json` as the daemon reads it (missing fields take
/// their defaults).
#[derive(Debug, Clone)]
pub struct KScreenJson {
    pub outputs: Vec<JsonOutput>,
}

#[derive(Debug, Clone)]
pub struct JsonOutput {
    pub name: String,
    pub enabled: bool,
    /// `currentModeId`.
    pub current_mode_id: Option<String>,
    pub modes: Vec<JsonMode>,
}

#[derive(Debug, Clone)]
pub struct JsonMode {
    pub id: String,
    pub size: JsonSize,
}

#[derive(Debug, Clone, Copy, PartialEq, Eq, Structural)]
pub struct JsonSize {
    pub width: u32,
    pub height: u32,
}

impl Default for JsonSize {
    fn default() -> (s: Self)
        ensures
            s.width == 0 && s.height == 0,
    {
        JsonSize { width: 0, height: 0 }
    }
}

/// Size of the first mode of `modes` whose id is `id`.
pub open spec fn mode_size(modes: Seq<JsonMode>, id: Seq<char>) -> Option<JsonSize>
    decreases modes.len(),
{
    if modes.len() == 0 {
        None
    } else if modes[0].id@ == id {
        Some(modes[0].size)
    } else {
        mode_size(modes.skip(1), id)
    }
}

/// The monitor that an output describes: it must be enabled, name a
/// current mode that is among its modes, and that mode must be larger than
/// 100 by 100.
pub open spec fn json_monitor(o: JsonOutput) -> Option<(Seq<char>, u32, u32)> {
    if !o.enabled {
        None
    } else {
        match o.current_mode_id {
            None => None,
            Some(cid) => match mode_size(o.modes@, cid@) {
                None => None,
                Some(sz) => if sz.width > 100 && sz.height > 100 {
                    Some((o.name@, sz.width, sz.height))
                } else {
                    None
                },
            },
        }
    }
}

pub open spec fn json_monitors(outs: Seq<JsonOutput>) -> Seq<(Seq<char>, u32, u32)>
    decreases outs.len(),
{
    if outs.len() == 0 {
        Seq::empty()
    } else {
        match json_monitor(outs[0]) {
            Some(m) => seq![m] + json_monitors(outs.skip(1)),
            None => json_monitors(outs.skip(1)),
        }
    }
}

fn find_mode(modes: &Vec<JsonMode>, id: &String) -> (r: Option<JsonSize>)
    ensures
        r == mode_size(modes@, id@),
{
    let n = modes.len();
    let mut i: usize = 0;
    assert(modes@.skip(0) =~= modes@);
    while i < n
        invariant
            i <= n == modes@.len(),
            mode_size(modes@, id@) == mode_size(modes@.skip(i as int), id@),
        decreases n - i,
    {
        assert(modes@.skip(i as int)[0] == modes@[i as int]);
        assert(modes@.skip(i as int).skip(1) =~= modes@.skip(i + 1));
        if modes[i].id == *id {
            return Some(modes[i].size);
        }
        i = i + 1;
    }
    None
}

/// The enabled monitors that `kscreen-doctor --json` describes, in order.
pub fn parse_json_monitors(cfg: &KScreenJson) -> (ms: Vec<Monitor>)
    ensures
        monitor_views(ms@) == json_monitors(cfg.outputs@),
{
    let outs = &cfg.outputs;
    let n = outs.len();
    let mut ms: Vec<Monitor> = Vec::new();
    let mut i: usize = 0;
    assert(outs@.skip(0) =~= outs@);
    while i < n
        invariant
            i <= n == outs@.len(),
            json_monitors(outs@) == monitor_views(ms@) + json_monitors(outs@.skip(i as int)),
        decreases n - i,
    {
        let o = &outs[i];
        let ghost rest = outs@.skip(i as int);
        assert(rest[0] == *o);
        assert(rest.skip(1) =~= outs@.skip(i + 1));
        let ghost pre = monitor_views(ms@);
        if o.enabled {
            match &o.current_mode_id {
                Some(cid) => {
                    match find_mode(&o.modes, cid) {
                        Some(sz) => {
                            if sz.width > 100 && sz.height > 100 {
                                ms.push(Monitor { name: o.name.clone(), width: sz.width, height: sz.height });
                                assert(monitor_views(ms@) =~= pre.push((o.name@, sz.width, sz.height)));
                                assert(pre + json_monitors(rest) =~= monitor_views(ms@) + json_monitors(
                                    outs@.skip(i + 1),
                                ));
                            }
                        },
                        None => {},
                    }
                },
                None => {},
            }
        }
        i = i + 1;
    }
    assert(json_monitors(outs@.skip(n as int)) =~= Seq::<(Seq<char>, u32, u32)>::empty());
    assert(monitor_views(ms@) + Seq::<(Seq<char>, u32, u32)>::empty() =~= monitor_views(ms@));
    ms
}

/// The monitors that detection reports from what `kscreen-doctor` printed:
/// those of the JSON output when it gives at least one, otherwise those of
/// the text output, otherwise none. The daemon runs the text command only
/// when the JSON output gave none.
pub fn detect_all(json: Option<&KScreenJson>, text: Option<&str>) -> (ms: Vec<Monitor>)
    ensures
        monitor_views(ms@) == (match json {
            Some(j) if json_monitors(j.outputs@).len() > 0 => json_monitors(j.outputs@),
            _ => match text {
                Some(t) => spec_parse_all_monitors(t@),
                None => Seq::empty(),
            },
        }),
{
    match json {
        Some(j) => {
            let ms = parse_json_monitors(j);
            if ms.len() > 0 {
                return ms;
            }
        },
        None => {},
    }
    match text {
        Some(t) => parse_all_monitors(t),
        None => {
            let ms: Vec<Monitor> = Vec::new();
            assert(monitor_views(ms@) =~= Seq::<(Seq<char>, u32, u32)>::empty());
            ms
        },
    }
}


// ---- laws ----------------------------------------------------------------

pub open spec fn large(m: (Seq<char>, u32, u32)) -> bool {
    m.1 > 100 && m.2 > 100
}

spec fn large_state(st: ScanState) -> bool {
    &&& forall|i: int| 0 <= i < st.found.len() ==> large(#[trigger] st.found[i])
    &&& (st.candidate matches Some(c) ==> c.0 > 100 && c.1 > 100)
}

proof fn lemma_first_resolution_large(toks: Seq<Seq<char>>)
    ensures
        first_resolution_in(toks) matches Some(r) ==> r.0 > 100 && r.1 > 100,
    decreases toks.len(),
{
    if toks.len() > 0 {
        lemma_first_resolution_large(toks.skip(1));
    }
}

proof fn lemma_scan_large(st: ScanState, ls: Seq<Seq<char>>)
    requires
        large_state(st),
    ensures
        large_state(scan_lines(st, ls)),
    decreases ls.len(),
{
    if ls.len() > 0 {
        let t = trim(ls[0]);
        lemma_first_resolution_large(split_by(t, class_fn(CharClass::AsciiWsOrComma)));
        let f = flush(st);
        assert forall|i: int| 0 <= i < f.len() implies large(#[trigger] f[i]) by {
            if i < st.found.len() {
                assert(f[i] == st.found[i]);
            }
        }
        lemma_scan_large(scan_line(st, ls[0]), ls.skip(1));
    }
}

/// Only sizes above 100 by 100 are taken for resolutions: every monitor
/// read from the text output is larger than that.
pub proof fn lemma_text_monitors_are_large(text: Seq<char>)
    ensures
        forall|i: int|
            0 <= i < spec_parse_all_monitors(text).len() ==> large(
                #[trigger] spec_parse_all_monitors(text)[i],
            ),
{
    lemma_scan_large(scan_start(), lines(text));
    let st = scan_lines(scan_start(), lines(text));
    let f = flush(st);
    assert forall|i: int| 0 <= i < f.len() implies large(#[trigger] f[i]) by {
        if i < st.found.len() {
            assert(f[i] == st.found[i]);
        }
    }
}

/// Every monitor read from the JSON output is larger than 100 by 100.
pub proof fn lemma_json_monitors_are_large(outs: Seq<JsonOutput>)
    ensures
        forall|i: int| 0 <= i < json_monitors(outs).len() ==> large(#[trigger] json_monitors(outs)[i]),
    decreases outs.len(),
{
    if outs.len() > 0 {
        lemma_json_monitors_are_large(outs.skip(1));
        let rest = json_monitors(outs.skip(1));
        let all = json_monitors(outs);
        assert forall|i: int| 0 <= i < all.len() implies large(#[trigger] all[i]) by {
            if json_monitor(outs[0]) is Some {
                if i > 0 {
                    assert(all[i] == rest[i - 1]);
                }
            } else {
                assert(all[i] == rest[i]);
            }
        }
    }
}


/// The monitors that the lines `ls` of the text output describe.
pub open spec fn monitors_of_lines(ls: Seq<Seq<char>>) -> Seq<(Seq<char>, u32, u32)> {
    flush(scan_lines(scan_start(), ls))
}

/// A line that opens an output block.
pub open spec fn is_output_line(l: Seq<char>) -> bool {
    starts_with(trim(l), "Output:"@)
}

/// `st` with `pre` in front of the monitors found.
spec fn with_prefix(st: ScanState, pre: Seq<(Seq<char>, u32, u32)>) -> ScanState {
    ScanState { found: pre + st.found, ..st }
}

proof fn lemma_flush_prefix(st: ScanState, pre: Seq<(Seq<char>, u32, u32)>)
    ensures
        flush(with_prefix(st, pre)) == pre + flush(st),
{
    if st.in_enabled && st.candidate is Some {
        let c = st.candidate->0;
        assert((pre + st.found).push((st.name, c.0, c.1)) =~= pre + st.found.push((st.name, c.0, c.1)));
    }
}

proof fn lemma_scan_prefix(st: ScanState, ls: Seq<Seq<char>>, pre: Seq<(Seq<char>, u32, u32)>)
    ensures
        scan_lines(with_prefix(st, pre), ls) == with_prefix(scan_lines(st, ls), pre),
    decreases ls.len(),
{
    if ls.len() > 0 {
        lemma_flush_prefix(st, pre);
        assert(scan_line(with_prefix(st, pre), ls[0]) == with_prefix(scan_line(st, ls[0]), pre));
        lemma_scan_prefix(scan_line(st, ls[0]), ls.skip(1), pre);
    }
}

proof fn lemma_scan_concat(st: ScanState, a: Seq<Seq<char>>, b: Seq<Seq<char>>)
    ensures
        scan_lines(st, a + b) == scan_lines(scan_lines(st, a), b),
    decreases a.len(),
{
    if a.len() > 0 {
        assert((a + b)[0] == a[0]);
        assert((a + b).skip(1) =~= a.skip(1) + b);
        lemma_scan_concat(scan_line(st, a[0]), a.skip(1), b);
    } else {
        assert(a + b =~= b);
    }
}

/// The monitors come in the order of their blocks: lines that begin with
/// an `Output:` line add their monitors after those of the lines before
/// them.
pub proof fn lemma_monitors_in_block_order(a: Seq<Seq<char>>, b: Seq<Seq<char>>)
    requires
        b.len() > 0,
        is_output_line(b[0]),
    ensures
        monitors_of_lines(a + b) == monitors_of_lines(a) + monitors_of_lines(b),
{
    let sa = scan_lines(scan_start(), a);
    lemma_scan_concat(scan_start(), a, b);
    let o = b[0];
    assert(flush(scan_start()) =~= Seq::<(Seq<char>, u32, u32)>::empty());
    let one = scan_line(scan_start(), o);
    assert(one.found =~= Seq::<(Seq<char>, u32, u32)>::empty());
    assert(scan_line(sa, o) == with_prefix(one, flush(sa))) by {
        assert(flush(sa) + one.found =~= flush(sa));
    }
    lemma_scan_prefix(one, b.skip(1), flush(sa));
    lemma_flush_prefix(scan_lines(one, b.skip(1)), flush(sa));
}

spec fn block_state(st: ScanState, name: Seq<char>, enabled: bool) -> bool {
    &&& st.found.len() == 0
    &&& st.name == name
    &&& st.in_enabled == enabled
    &&& !enabled ==> st.candidate is None
}

proof fn lemma_block_scan(st: ScanState, rest: Seq<Seq<char>>, name: Seq<char>, enabled: bool)
    requires
        block_state(st, name, enabled),
        forall|i: int| 0 <= i < rest.len() ==> !is_output_line(#[trigger] rest[i]),
    ensures
        block_state(scan_lines(st, rest), name, enabled),
    decreases rest.len(),
{
    if rest.len() > 0 {
        assert(!is_output_line(rest[0]));
        assert forall|i: int| 0 <= i < rest.skip(1).len() implies !is_output_line(#[trigger] rest.skip(1)[i]) by {
            assert(rest.skip(1)[i] == rest[i + 1]);
        }
        lemma_block_scan(scan_line(st, rest[0]), rest.skip(1), name, enabled);
    }
}

/// Each block gives at most one monitor, named by the third word of its
/// `Output:` line, and none when that line does not say `enabled`.
pub proof fn lemma_block_monitor(o: Seq<char>, rest: Seq<Seq<char>>)
    requires
        is_output_line(o),
        forall|i: int| 0 <= i < rest.len() ==> !is_output_line(#[trigger] rest[i]),
    ensures
        monitors_of_lines(seq![o] + rest).len() <= 1,
        monitors_of_lines(seq![o] + rest).len() == 1 ==> monitors_of_lines(seq![o] + rest)[0].0 == word_at(
            trim(o),
            2,
        ),
        !contains_seq(trim(o), "enabled"@) ==> monitors_of_lines(seq![o] + rest).len() == 0,
{
    let ls = seq![o] + rest;
    assert(ls[0] == o);
    assert(ls.skip(1) =~= rest);
    let t = trim(o);
    let one = scan_line(scan_start(), o);
    assert(flush(scan_start()) =~= Seq::<(Seq<char>, u32, u32)>::empty());
    assert(block_state(one, word_at(t, 2), contains_seq(t, "enabled"@)));
    lemma_block_scan(one, rest, word_at(t, 2), contains_seq(t, "enabled"@));
}

} // verus!
