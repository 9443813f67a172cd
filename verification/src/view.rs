//! The dashboard's view of the scan state: sorting and filtering the host
//! table, navigation, and the text of every cell and status line.

use vstd::prelude::*;

use crate::scanner::{hosts_sorted, HostInfo, ScanState, RESCAN_INTERVAL_MS};
use crate::ipv4::{ipv4_text, push_ipv4, subnet_text};
use crate::mac::{mac_text, push_mac};
use crate::oui::vendor_name;
use crate::text::{chars_of, decimal, digit_char, push_char, push_decimal};
use vstd::string::StringExecFns;

verus! {

/// The column the host table is ordered by.
#[derive(Clone, Copy, Debug, PartialEq, Eq)]
pub enum SortMode {
    Ip,
    Latency,
    Hostname,
    LastSeen,
}

impl SortMode {
    /// The next mode in the cycle IP, latency, hostname, last seen, IP.
    pub open spec fn spec_next(self) -> SortMode {
        match self {
            SortMode::Ip => SortMode::Latency,
            SortMode::Latency => SortMode::Hostname,
            SortMode::Hostname => SortMode::LastSeen,
            SortMode::LastSeen => SortMode::Ip,
        }
    }

    /// The next mode in the cycle.
    pub fn next(self) -> (r: SortMode)
        ensures
            r == self.spec_next(),
    {
        match self {
            SortMode::Ip => SortMode::Latency,
            SortMode::Latency => SortMode::Hostname,
            SortMode::Hostname => SortMode::LastSeen,
            SortMode::LastSeen => SortMode::Ip,
        }
    }

    /// The name shown in the header.
    pub open spec fn spec_label(self) -> Seq<char> {
        match self {
            SortMode::Ip => "IP"@,
            SortMode::Latency => "latency"@,
            SortMode::Hostname => "hostname"@,
            SortMode::LastSeen => "last seen"@,
        }
    }

    /// The name shown in the header.
    pub fn label(&self) -> (r: &'static str)
        ensures
            r@ == self.spec_label(),
    {
        match self {
            SortMode::Ip => "IP",
            SortMode::Latency => "latency",
            SortMode::Hostname => "hostname",
            SortMode::LastSeen => "last seen",
        }
    }
}

/// Lexicographic order of character sequences (as `String`'s order:
/// UTF-8 bytes compare as code points do).
pub open spec fn seq_less(a: Seq<char>, b: Seq<char>) -> bool
    decreases a.len(),
{
    if a.len() == 0 {
        b.len() > 0
    } else if b.len() == 0 {
        false
    } else if a[0] != b[0] {
        a[0] < b[0]
    } else {
        seq_less(a.drop_first(), b.drop_first())
    }
}

pub proof fn lemma_seq_less_order(a: Seq<char>, b: Seq<char>, c: Seq<char>)
    ensures
        !seq_less(a, a),
        seq_less(a, b) ==> !seq_less(b, a),
        a != b ==> seq_less(a, b) || seq_less(b, a),
        seq_less(a, b) && seq_less(b, c) ==> seq_less(a, c),
    decreases a.len(),
{
    if a.len() > 0 {
        lemma_seq_less_order(a.drop_first(), a.drop_first(), a.drop_first());
        if b.len() > 0 {
            lemma_seq_less_order(a.drop_first(), b.drop_first(), b.drop_first());
            if c.len() > 0 {
                lemma_seq_less_order(a.drop_first(), b.drop_first(), c.drop_first());
            }
            if a != b && a[0] == b[0] {
                assert(a.drop_first() != b.drop_first()) by {
                    if a.drop_first() == b.drop_first() {
                        assert(a =~= seq![a[0]] + a.drop_first());
                        assert(b =~= seq![b[0]] + b.drop_first());
                    }
                }
            }
        }
    } else {
        if b.len() == 0 {
            assert(a =~= b);
        }
    }
}

/// Whether `a` comes before `b` in the table ordered by `mode`. Hosts
/// without a latency or without a hostname come after the others in those
/// orders; the most recently seen come first in the last-seen order; the
/// address breaks every tie.
pub open spec fn host_before(a: HostInfo, b: HostInfo, mode: SortMode) -> bool {
    match mode {
        SortMode::Ip => a.ip < b.ip,
        SortMode::Latency => match (a.latency_us, b.latency_us) {
            (Some(x), Some(y)) => x < y || (x == y && a.ip < b.ip),
            (Some(_), None) => true,
            (None, Some(_)) => false,
            (None, None) => a.ip < b.ip,
        },
        SortMode::Hostname => match (a.hostname, b.hostname) {
            (Some(x), Some(y)) => seq_less(x@, y@) || (x@ == y@ && a.ip < b.ip),
            (Some(_), None) => true,
            (None, Some(_)) => false,
            (None, None) => a.ip < b.ip,
        },
        SortMode::LastSeen => a.last_seen > b.last_seen || (a.last_seen == b.last_seen && a.ip < b.ip),
    }
}

/// `host_before` is a strict total order on hosts with different addresses.
pub proof fn lemma_host_before_order(a: HostInfo, b: HostInfo, c: HostInfo, mode: SortMode)
    ensures
        !host_before(a, a, mode),
        host_before(a, b, mode) ==> !host_before(b, a, mode),
        a.ip != b.ip ==> host_before(a, b, mode) || host_before(b, a, mode),
        host_before(a, b, mode) && host_before(b, c, mode) ==> host_before(a, c, mode),
{
    let e = Seq::<char>::empty();
    let x = if a.hostname is Some { a.hostname->0@ } else { e };
    let y = if b.hostname is Some { b.hostname->0@ } else { e };
    let z = if c.hostname is Some { c.hostname->0@ } else { e };
    lemma_seq_less_order(x, y, z);
    lemma_seq_less_order(y, x, z);
}

fn str_less(a: &String, b: &String) -> (r: bool)
    ensures
        r == seq_less(a@, b@),
{
    let x = chars_of(a.as_str());
    let y = chars_of(b.as_str());
    let mut i: usize = 0;
    assert(x@.skip(0) =~= x@);
    assert(y@.skip(0) =~= y@);
    while i < x.len() && i < y.len()
        invariant
            i <= x@.len(),
            i <= y@.len(),
            seq_less(a@, b@) == seq_less(x@.skip(i as int), y@.skip(i as int)),
            x@ == a@,
            y@ == b@,
        decreases x.len() - i,
    {
        assert(x@.skip(i as int)[0] == x@[i as int]);
        assert(y@.skip(i as int)[0] == y@[i as int]);
        if x[i] != y[i] {
            return x[i] < y[i];
        }
        assert(x@.skip(i as int).drop_first() =~= x@.skip(i + 1));
        assert(y@.skip(i as int).drop_first() =~= y@.skip(i + 1));
        i = i + 1;
    }
    i < y.len()
}

/// `host_before(*a, *b, mode)`.
pub fn exec_host_before(a: &HostInfo, b: &HostInfo, mode: SortMode) -> (r: bool)
    ensures
        r == host_before(*a, *b, mode),
{
    match mode {
        SortMode::Ip => a.ip < b.ip,
        SortMode::Latency => match (a.latency_us, b.latency_us) {
            (Some(x), Some(y)) => x < y || (x == y && a.ip < b.ip),
            (Some(_), None) => true,
            (None, Some(_)) => false,
            (None, None) => a.ip < b.ip,
        },
        SortMode::Hostname => match (&a.hostname, &b.hostname) {
            (Some(x), Some(y)) => {
                if str_less(x, y) {
                    true
                } else if str_less(y, x) {
                    false
                } else {
                    proof {
                        lemma_seq_less_order(x@, y@, y@);
                    }
                    a.ip < b.ip
                }
            },
            (Some(_), None) => true,
            (None, Some(_)) => false,
            (None, None) => a.ip < b.ip,
        },
        SortMode::LastSeen => a.last_seen > b.last_seen || (a.last_seen == b.last_seen && a.ip
            < b.ip),
    }
}

/// Whether the host is shown with the online-only filter set as given.
pub open spec fn shown(h: HostInfo, online_only: bool) -> bool {
    !online_only || h.online
}

/// The rows of the host table: the positions in `state.hosts` of the hosts
/// shown (all, or the online ones with `online_only`), each once, ordered
/// by `mode`. The host list itself is left as it is.
pub fn visible_hosts(state: &ScanState, mode: SortMode, online_only: bool) -> (r: Vec<usize>)
    requires
        state.wf(),
    ensures
        r@.len() == shown_count(state.hosts@, online_only),
        forall|i: int| 0 <= i < r@.len() ==> #[trigger] r@[i] < state.hosts@.len() && shown(
            state.hosts@[r@[i] as int],
            online_only,
        ),
        forall|k: int| 0 <= k < state.hosts@.len() && shown(#[trigger] state.hosts@[k], online_only)
            ==> r@.contains(k as usize),
        forall|i: int, j: int| 0 <= i < j < r@.len() ==> host_before(
            state.hosts@[r@[i] as int],
            state.hosts@[r@[j] as int],
            mode,
        ),
{
    let hosts = &state.hosts;
    let mut r: Vec<usize> = Vec::new();
    let mut k: usize = 0;
    assert(hosts@.take(0) =~= Seq::<HostInfo>::empty());
    while k < hosts.len()
        invariant
            hosts_sorted(hosts@),
            k <= hosts@.len(),
            r@.len() == shown_count(hosts@.take(k as int), online_only),
            forall|i: int| 0 <= i < r@.len() ==> #[trigger] r@[i] < k && shown(
                hosts@[r@[i] as int],
                online_only,
            ),
            forall|q: int| 0 <= q < k && shown(#[trigger] hosts@[q], online_only) ==> r@.contains(
                q as usize,
            ),
            forall|i: int, j: int| 0 <= i < j < r@.len() ==> host_before(
                hosts@[r@[i] as int],
                hosts@[r@[j] as int],
                mode,
            ),
        decreases hosts.len() - k,
    {
        assert(hosts@.take(k + 1).drop_last() =~= hosts@.take(k as int));
        assert(hosts@.take(k + 1).last() == hosts@[k as int]);
        if !online_only || hosts[k].online {
            let h = &hosts[k];
            let mut p: usize = 0;
            while p < r.len() && !exec_host_before(h, &hosts[r[p]], mode)
                invariant
                    p <= r@.len(),
                    k < hosts@.len(),
                    *h == hosts@[k as int],
                    forall|i: int| 0 <= i < r@.len() ==> #[trigger] r@[i] < k,
                    forall|i: int| 0 <= i < p ==> !host_before(*h, hosts@[r@[i] as int], mode),
                decreases r.len() - p,
            {
                p = p + 1;
            }
            let ghost old_r = r@;
            proof {
                assert forall|i: int| 0 <= i < p implies host_before(hosts@[old_r[i] as int], *h, mode) by {
                    assert(hosts@[old_r[i] as int].ip < h.ip);
                    lemma_host_before_order(*h, hosts@[old_r[i] as int], *h, mode);
                }
                assert forall|i: int| p <= i < old_r.len() implies host_before(*h, hosts@[old_r[i] as int], mode) by {
                    if i > p {
                        lemma_host_before_order(*h, hosts@[old_r[p as int] as int], hosts@[old_r[i] as int], mode);
                    }
                }
            }
            r.insert(p, k);
            proof {
                assert forall|i: int, j: int| 0 <= i < j < r@.len() implies host_before(
                    hosts@[r@[i] as int],
                    hosts@[r@[j] as int],
                    mode,
                ) by {
                    if j < p {
                    } else if j == p {
                    } else if i < p {
                        assert(r@[j] == old_r[j - 1]);
                        lemma_host_before_order(hosts@[old_r[i] as int], *h, hosts@[old_r[j - 1] as int], mode);
                    } else if i == p {
                        assert(r@[j] == old_r[j - 1]);
                    } else {
                        assert(r@[i] == old_r[i - 1]);
                        assert(r@[j] == old_r[j - 1]);
                    }
                }
                assert forall|q: int| 0 <= q < k + 1 && shown(#[trigger] hosts@[q], online_only) implies r@.contains(
                    q as usize,
                ) by {
                    if q == k {
                        assert(r@[p as int] == k);
                    } else {
                        assert(old_r.contains(q as usize));
                        let i = choose|i: int| 0 <= i < old_r.len() && #[trigger] old_r[i] == q as usize;
                        if i < p {
                            assert(r@[i] == q as usize);
                        } else {
                            assert(r@[i + 1] == q as usize);
                        }
                    }
                }
                assert forall|i: int| 0 <= i < r@.len() implies #[trigger] r@[i] < k + 1 && shown(
                    hosts@[r@[i] as int],
                    online_only,
                ) by {
                    if i < p {
                    } else if i > p {
                        assert(r@[i] == old_r[i - 1]);
                    }
                }
            }
        }
        k = k + 1;
    }
    assert(hosts@.take(hosts.len() as int) =~= hosts@);
    r
}


// ---------------------------------------------------------------------------
// Navigation and keys
// ---------------------------------------------------------------------------

/// Frames of the scanning spinner.
pub const SPINNER_FRAMES: usize = 10;

/// How long a newly joined device keeps its "new" badge, in milliseconds.
pub const NEW_BADGE_TTL_MS: u64 = 300000;

/// A key the dashboard reacts to.
#[derive(Clone, Copy, Debug, PartialEq, Eq)]
pub enum Key {
    Char(char),
    Up,
    Down,
    Esc,
    Other,
}

/// What the event loop does after a key.
#[derive(Clone, Copy, Debug, PartialEq, Eq)]
pub enum Action {
    Continue,
    Quit,
    Rescan,
    Export,
}

/// The dashboard's own state: selection, spinner, sort order and filter.
pub struct App {
    /// The selected row of the visible table.
    pub selected: Option<usize>,
    pub spinner_frame: usize,
    pub sort: SortMode,
    pub online_only: bool,
}

/// The number of hosts shown with the filter set as given.
pub open spec fn shown_count(hosts: Seq<HostInfo>, online_only: bool) -> nat
    decreases hosts.len(),
{
    if hosts.len() == 0 {
        0
    } else {
        shown_count(hosts.drop_last(), online_only) + (if shown(hosts.last(), online_only) {
            1nat
        } else {
            0nat
        })
    }
}

/// The selection after moving down in a table of `len` rows.
pub open spec fn next_selection(sel: Option<usize>, len: usize) -> Option<usize> {
    if len == 0 {
        sel
    } else {
        match sel {
            None => Some(0),
            Some(i) => Some(if i + 1 <= len - 1 {
                (i + 1) as usize
            } else {
                (len - 1) as usize
            }),
        }
    }
}

/// The selection after moving up in a table of `len` rows, stopping at the
/// first row and kept within the table (a selection left over from a
/// longer table lands on its last row).
pub open spec fn prev_selection(sel: Option<usize>, len: usize) -> Option<usize> {
    if len == 0 {
        sel
    } else {
        match sel {
            None => Some(0),
            Some(i) => {
                let up: int = if i == 0 {
                    0
                } else {
                    i - 1
                };
                Some(if up <= len - 1 {
                    up as usize
                } else {
                    (len - 1) as usize
                })
            },
        }
    }
}

/// The selection kept within a table of `len` rows.
pub open spec fn clamped_selection(sel: Option<usize>, len: usize) -> Option<usize> {
    match sel {
        None => None,
        Some(i) => if len == 0 {
            None
        } else if i >= len {
            Some((len - 1) as usize)
        } else {
            Some(i)
        },
    }
}

/// The action a key asks for.
pub open spec fn key_action(key: Key) -> Action {
    match key {
        Key::Char('q') | Key::Esc => Action::Quit,
        Key::Char('r') => Action::Rescan,
        Key::Char('e') => Action::Export,
        _ => Action::Continue,
    }
}

/// The number of hosts shown with the filter set as given.
pub fn visible_count(hosts: &Vec<HostInfo>, online_only: bool) -> (r: usize)
    ensures
        r == shown_count(hosts@, online_only),
{
    let mut n: usize = 0;
    let mut k: usize = 0;
    assert(hosts@.take(0) =~= Seq::<HostInfo>::empty());
    while k < hosts.len()
        invariant
            k <= hosts@.len(),
            n == shown_count(hosts@.take(k as int), online_only),
            n <= k,
        decreases hosts.len() - k,
    {
        assert(hosts@.take(k + 1).drop_last() =~= hosts@.take(k as int));
        assert(hosts@.take(k + 1).last() == hosts@[k as int]);
        if !online_only || hosts[k].online {
            n = n + 1;
        }
        k = k + 1;
    }
    assert(hosts@.take(hosts.len() as int) =~= hosts@);
    n
}

impl App {
    /// The spinner frame is one of the `SPINNER_FRAMES` frames.
    pub open spec fn wf(&self) -> bool {
        self.spinner_frame < SPINNER_FRAMES
    }

    /// No selection, first spinner frame, ordered by address, all hosts.
    pub fn new() -> (r: App)
        ensures
            r.selected is None,
            r.spinner_frame == 0,
            r.wf(),
            r.sort == SortMode::Ip,
            !r.online_only,
    {
        App { selected: None, spinner_frame: 0, sort: SortMode::Ip, online_only: false }
    }

    /// Moves the selection down one row, stopping at the last of `len`.
    pub fn next_row(&mut self, len: usize)
        ensures
            final(self).selected == next_selection(old(self).selected, len),
            final(self).spinner_frame == old(self).spinner_frame,
            final(self).sort == old(self).sort,
            final(self).online_only == old(self).online_only,
    {
        if len == 0 {
            return;
        }
        let i = match self.selected {
            None => 0,
            Some(i) => if i >= len - 1 {
                len - 1
            } else {
                i + 1
            },
        };
        self.selected = Some(i);
    }

    /// Moves the selection up one row, stopping at the first and staying
    /// within the `len` rows shown.
    pub fn prev_row(&mut self, len: usize)
        ensures
            final(self).selected == prev_selection(old(self).selected, len),
            final(self).spinner_frame == old(self).spinner_frame,
            final(self).sort == old(self).sort,
            final(self).online_only == old(self).online_only,
    {
        if len == 0 {
            return;
        }
        let i = match self.selected {
            None => 0,
            Some(i) => {
                let up = if i == 0 {
                    0
                } else {
                    i - 1
                };
                if up <= len - 1 {
                    up
                } else {
                    len - 1
                }
            },
        };
        self.selected = Some(i);
    }

    /// Keeps the selection within a table of `len` rows.
    pub fn clamp_selection(&mut self, len: usize)
        ensures
            final(self).selected == clamped_selection(old(self).selected, len),
            final(self).spinner_frame == old(self).spinner_frame,
            final(self).sort == old(self).sort,
            final(self).online_only == old(self).online_only,
    {
        self.selected = match self.selected {
            None => None,
            Some(i) => if len == 0 {
                None
            } else if i >= len {
                Some(len - 1)
            } else {
                Some(i)
            },
        };
    }

    /// Advances the spinner by one frame.
    pub fn tick(&mut self)
        requires
            old(self).spinner_frame < usize::MAX,
        ensures
            final(self).spinner_frame == (old(self).spinner_frame + 1) % (SPINNER_FRAMES as int),
            final(self).wf(),
            final(self).selected == old(self).selected,
            final(self).sort == old(self).sort,
            final(self).online_only == old(self).online_only,
    {
        self.spinner_frame = (self.spinner_frame + 1) % SPINNER_FRAMES;
    }

    /// Reacts to a key: `q`/Esc quit, `r` asks for a rescan, `e` for an
    /// export; `s` cycles the order and `f` the online-only filter (the
    /// selection is kept within the rows then shown); `j`/Down and `k`/Up
    /// move the selection within the shown rows.
    pub fn handle_key(&mut self, key: Key, state: &ScanState) -> (r: Action)
        ensures
            r == key_action(key),
            final(self).spinner_frame == old(self).spinner_frame,
            match key {
                Key::Char('s') => {
                    &&& final(self).sort == old(self).sort.spec_next()
                    &&& final(self).online_only == old(self).online_only
                    &&& final(self).selected == clamped_selection(
                        old(self).selected,
                        shown_count(state.hosts@, old(self).online_only) as usize,
                    )
                },
                Key::Char('f') => {
                    &&& final(self).sort == old(self).sort
                    &&& final(self).online_only == !old(self).online_only
                    &&& final(self).selected == clamped_selection(
                        old(self).selected,
                        shown_count(state.hosts@, !old(self).online_only) as usize,
                    )
                },
                Key::Char('j') | Key::Down => {
                    &&& final(self).sort == old(self).sort
                    &&& final(self).online_only == old(self).online_only
                    &&& final(self).selected == next_selection(
                        old(self).selected,
                        shown_count(state.hosts@, old(self).online_only) as usize,
                    )
                },
                Key::Char('k') | Key::Up => {
                    &&& final(self).sort == old(self).sort
                    &&& final(self).online_only == old(self).online_only
                    &&& final(self).selected == prev_selection(
                        old(self).selected,
                        shown_count(state.hosts@, old(self).online_only) as usize,
                    )
                },
                _ => {
                    &&& final(self).sort == old(self).sort
                    &&& final(self).online_only == old(self).online_only
                    &&& final(self).selected == old(self).selected
                },
            },
    {
        match key {
            Key::Char('q') | Key::Esc => Action::Quit,
            Key::Char('r') => Action::Rescan,
            Key::Char('e') => Action::Export,
            Key::Char('s') => {
                self.sort = self.sort.next();
                let n = visible_count(&state.hosts, self.online_only);
                self.clamp_selection(n);
                Action::Continue
            },
            Key::Char('f') => {
                self.online_only = !self.online_only;
                let n = visible_count(&state.hosts, self.online_only);
                self.clamp_selection(n);
                Action::Continue
            },
            Key::Char('j') | Key::Down => {
                let n = visible_count(&state.hosts, self.online_only);
                self.next_row(n);
                Action::Continue
            },
            Key::Char('k') | Key::Up => {
                let n = visible_count(&state.hosts, self.online_only);
                self.prev_row(n);
                Action::Continue
            },
            _ => Action::Continue,
        }
    }
}


// ---------------------------------------------------------------------------
// Cell and status texts
// ---------------------------------------------------------------------------

/// How long ago, in whole seconds, minutes (from one minute) or hours (from
/// one hour): `42s`, `12m`, `3h`.
pub open spec fn age_text(secs: nat) -> Seq<char> {
    if secs < 60 {
        decimal(secs) + "s"@
    } else if secs < 3600 {
        decimal(secs / 60) + "m"@
    } else {
        decimal(secs / 3600) + "h"@
    }
}

/// `age_text` of an age in seconds.
pub fn fmt_age(age_secs: u64) -> (r: String)
    ensures
        r@ == age_text(age_secs as nat),
{
    let mut s = String::new();
    if age_secs < 60 {
        push_decimal(&mut s, age_secs);
        s.append("s");
    } else if age_secs < 3600 {
        push_decimal(&mut s, age_secs / 60);
        s.append("m");
    } else {
        push_decimal(&mut s, age_secs / 3600);
        s.append("h");
    }
    s
}

/// A latency in milliseconds with one decimal, rounded half up:
/// `0.4 ms`, `12.0 ms`.
pub open spec fn latency_text(us: nat) -> Seq<char> {
    let tenths = (us + 50) / 100;
    decimal(tenths / 10) + seq!['.', digit_char(tenths % 10)] + " ms"@
}

/// `latency_text` of a latency in microseconds.
pub fn fmt_latency(us: u64) -> (r: String)
    ensures
        r@ == latency_text(us as nat),
{
    let tenths: u64 = us / 100 + (if us % 100 >= 50 {
        1
    } else {
        0
    });
    assert(tenths == (us + 50) / 100);
    let mut s = String::new();
    push_decimal(&mut s, tenths / 10);
    push_char(&mut s, '.');
    push_char(&mut s, ((tenths % 10) as u8 + 48) as char);
    s.append(" ms");
    assert(s@ =~= latency_text(us as nat));
    s
}

/// Whole seconds from `then` to `now` (milliseconds), zero if `now` is
/// earlier.
pub open spec fn elapsed_secs(now: u64, then: u64) -> nat {
    if now >= then {
        ((now - then) / 1000) as nat
    } else {
        0
    }
}

/// How a host's status is shown.
#[derive(Clone, Copy, Debug, PartialEq, Eq)]
pub enum StatusKind {
    /// Online and joined within the badge time.
    New,
    Online,
    Offline,
}

/// The status of a host at `now`: the "new" badge while a newly joined
/// device is online within its badge time, "online", or for an offline
/// host how long ago it was last seen.
pub open spec fn status_of(h: HostInfo, now: u64) -> (StatusKind, Seq<char>) {
    if h.online {
        if h.is_new && (now < h.first_seen || now - h.first_seen < NEW_BADGE_TTL_MS) {
            (StatusKind::New, "★ new"@)
        } else {
            (StatusKind::Online, "● online"@)
        }
    } else {
        (StatusKind::Offline, "○ "@ + age_text(elapsed_secs(now, h.last_seen)) + " ago"@)
    }
}

/// The status cell of a host at `now` (see `status_of`).
pub fn status_cell(h: &HostInfo, now: u64) -> (r: (StatusKind, String))
    ensures
        r.0 == status_of(*h, now).0,
        r.1@ == status_of(*h, now).1,
{
    if h.online {
        if h.is_new && (now < h.first_seen || now - h.first_seen < NEW_BADGE_TTL_MS) {
            (StatusKind::New, String::from_str("★ new"))
        } else {
            (StatusKind::Online, String::from_str("● online"))
        }
    } else {
        let secs = if now >= h.last_seen {
            (now - h.last_seen) / 1000
        } else {
            0
        };
        let mut s = String::from_str("○ ");
        let age = fmt_age(secs);
        s.append(age.as_str());
        s.append(" ago");
        (StatusKind::Offline, s)
    }
}

/// The placeholder shown for a missing value.
pub open spec fn dash() -> Seq<char> {
    "—"@
}

/// The texts of one row of the host table.
pub struct HostRow {
    pub ip: String,
    pub mac: String,
    pub vendor: String,
    pub hostname: String,
    pub latency: String,
    pub status: StatusKind,
    pub status_text: String,
}

/// The row of the host table for `h` at `now`: address, MAC address,
/// vendor, hostname, latency (a dash where unknown) and status.
pub fn host_row(h: &HostInfo, now: u64) -> (r: HostRow)
    ensures
        r.ip@ == ipv4_text(h.ip),
        r.mac@ == (match h.mac {
            Some(m) => mac_text(m@),
            None => dash(),
        }),
        r.vendor@ == (match h.vendor {
            Some(v) => vendor_name(v),
            None => dash(),
        }),
        r.hostname@ == (match h.hostname {
            Some(n) => n@,
            None => dash(),
        }),
        r.latency@ == (match h.latency_us {
            Some(us) => latency_text(us as nat),
            None => dash(),
        }),
        r.status == status_of(*h, now).0,
        r.status_text@ == status_of(*h, now).1,
{
    let mut ip = String::new();
    push_ipv4(&mut ip, h.ip);
    assert(ip@ =~= ipv4_text(h.ip));
    let mac = match &h.mac {
        Some(m) => {
            let mut s = String::new();
            push_mac(&mut s, m);
            assert(s@ =~= mac_text(m@));
            s
        },
        None => String::from_str("—"),
    };
    let vendor = match &h.vendor {
        Some(v) => String::from_str(v.name()),
        None => String::from_str("—"),
    };
    let hostname = match &h.hostname {
        Some(n) => String::from_str(n.as_str()),
        None => String::from_str("—"),
    };
    let latency = match h.latency_us {
        Some(us) => fmt_latency(us),
        None => String::from_str("—"),
    };
    let (status, status_text) = status_cell(h, now);
    HostRow { ip, mac, vendor, hostname, latency, status, status_text }
}

/// The spinner frame `i`.
pub open spec fn spinner_glyph(i: nat) -> Seq<char> {
    if i == 0 {
        "⠋"@
    } else if i == 1 {
        "⠙"@
    } else if i == 2 {
        "⠹"@
    } else if i == 3 {
        "⠸"@
    } else if i == 4 {
        "⠼"@
    } else if i == 5 {
        "⠴"@
    } else if i == 6 {
        "⠦"@
    } else if i == 7 {
        "⠧"@
    } else if i == 8 {
        "⠇"@
    } else {
        "⠏"@
    }
}

fn spinner_frame_text(i: usize) -> (r: &'static str)
    ensures
        r@ == spinner_glyph(i as nat),
{
    if i == 0 {
        "⠋"
    } else if i == 1 {
        "⠙"
    } else if i == 2 {
        "⠹"
    } else if i == 3 {
        "⠸"
    } else if i == 4 {
        "⠼"
    } else if i == 5 {
        "⠴"
    } else if i == 6 {
        "⠦"
    } else if i == 7 {
        "⠧"
    } else if i == 8 {
        "⠇"
    } else {
        "⠏"
    }
}

/// The status in the header: while scanning the spinner and the progress
/// (`⠋ scanning  12/254`), otherwise the number of online hosts
/// (`● 7 online`).
pub open spec fn header_status_text(state: ScanState, frame: nat) -> Seq<char> {
    if state.scanning {
        spinner_glyph(frame) + " scanning  "@ + decimal(state.scan_progress as nat) + "/"@ + decimal(
            state.scan_total as nat,
        )
    } else {
        "● "@ + decimal(shown_count(state.hosts@, true)) + " online"@
    }
}

/// The header status (see `header_status_text`).
pub fn header_status(state: &ScanState, spinner_frame: usize) -> (r: String)
    requires
        state.scanning ==> spinner_frame < SPINNER_FRAMES,
    ensures
        r@ == header_status_text(*state, spinner_frame as nat),
{
    if state.scanning {
        let mut s = String::from_str(spinner_frame_text(spinner_frame));
        s.append(" scanning  ");
        push_decimal(&mut s, state.scan_progress as u64);
        s.append("/");
        push_decimal(&mut s, state.scan_total as u64);
        s
    } else {
        let n = visible_count(&state.hosts, true);
        let mut s = String::from_str("● ");
        push_decimal(&mut s, n as u64);
        s.append(" online");
        s
    }
}

/// The order and filter in the header: `sort: latency` and, with the
/// filter, `  filter: online`.
pub open spec fn header_mode_text(mode: SortMode, online_only: bool) -> Seq<char> {
    "sort: "@ + mode.spec_label() + (if online_only {
        "  filter: online"@
    } else {
        Seq::<char>::empty()
    })
}

/// The order and filter in the header (see `header_mode_text`).
pub fn header_mode(mode: SortMode, online_only: bool) -> (r: String)
    ensures
        r@ == header_mode_text(mode, online_only),
{
    let mut s = String::from_str("sort: ");
    s.append(mode.label());
    if online_only {
        s.append("  filter: online");
    }
    assert(s@ =~= header_mode_text(mode, online_only));
    s
}

/// The network in the header, or `detecting…` before it is known.
pub fn subnet_label(state: &ScanState) -> (r: String)
    ensures
        r@ == (match state.subnet {
            Some(n) => subnet_text(n.addr(), n.prefix_len()),
            None => "detecting…"@,
        }),
{
    match &state.subnet {
        Some(n) => n.to_string(),
        None => String::from_str("detecting…"),
    }
}

/// The local address in the header, or nothing before it is known.
pub fn local_label(state: &ScanState) -> (r: String)
    ensures
        r@ == (match state.local_ip {
            Some(ip) => ipv4_text(ip),
            None => Seq::<char>::empty(),
        }),
{
    let mut s = String::new();
    if let Some(ip) = state.local_ip {
        push_ipv4(&mut s, ip);
    }
    assert(s@ =~= (match state.local_ip {
        Some(ip) => ipv4_text(ip),
        None => Seq::<char>::empty(),
    }));
    s
}

/// The title of the host table: ` 12 hosts `, or ` 7 / 12 hosts ` while
/// only online hosts are shown.
pub open spec fn table_title_text(shown: nat, total: nat, online_only: bool) -> Seq<char> {
    if online_only {
        " "@ + decimal(shown) + " / "@ + decimal(total) + " hosts "@
    } else {
        " "@ + decimal(total) + " hosts "@
    }
}

/// The title of the host table (see `table_title_text`).
pub fn table_title(shown: usize, total: usize, online_only: bool) -> (r: String)
    ensures
        r@ == table_title_text(shown as nat, total as nat, online_only),
{
    let mut s = String::from_str(" ");
    if online_only {
        push_decimal(&mut s, shown as u64);
        s.append(" / ");
    }
    push_decimal(&mut s, total as u64);
    s.append(" hosts ");
    s
}

/// The footer status at `now`: `rescan queued` once a rescan was asked
/// for (also in the middle of a sweep), else `scanning…`, the seconds until
/// the next sweep, or `starting…` before the first one.
pub open spec fn footer_status_text(state: ScanState, now: u64) -> Seq<char> {
    if state.rescan_requested {
        "rescan queued"@
    } else if state.scanning {
        "scanning…"@
    } else if state.last_scan is Some {
        let waited = elapsed_secs(now, state.last_scan->0);
        let interval = (RESCAN_INTERVAL_MS / 1000) as nat;
        "next scan in "@ + decimal(if waited < interval {
            (interval - waited) as nat
        } else {
            0
        }) + "s"@
    } else {
        "starting…"@
    }
}

/// The footer status (see `footer_status_text`).
pub fn footer_status(state: &ScanState, now: u64) -> (r: String)
    ensures
        r@ == footer_status_text(*state, now),
{
    if state.rescan_requested {
        String::from_str("rescan queued")
    } else if state.scanning {
        String::from_str("scanning…")
    } else {
        match state.last_scan {
            Some(t) => {
                let waited = if now >= t {
                    (now - t) / 1000
                } else {
                    0
                };
                let interval = RESCAN_INTERVAL_MS / 1000;
                let remaining = if waited < interval {
                    interval - waited
                } else {
                    0
                };
                let mut s = String::from_str("next scan in ");
                push_decimal(&mut s, remaining);
                s.append("s");
                s
            },
            None => String::from_str("starting…"),
        }
    }
}

/// The full-screen message for a fatal error.
pub fn error_text(err: &str) -> (r: String)
    ensures
        r@ == " error: "@ + err@,
{
    let mut s = String::from_str(" error: ");
    s.append(err);
    s
}


// ---------------------------------------------------------------------------
// Laws of the view
// ---------------------------------------------------------------------------

/// Cycling the order four times comes back to the start.
pub proof fn lemma_sort_cycle(mode: SortMode)
    ensures
        mode.spec_next().spec_next().spec_next().spec_next() == mode,
{
}

/// Hosts without a latency come after those with one when ordered by
/// latency, nameless hosts after named ones when ordered by hostname, and
/// equal keys are ordered by address.
pub proof fn lemma_missing_keys_sort_last(a: HostInfo, b: HostInfo)
    ensures
        host_before(a, b, SortMode::Latency) && a.latency_us is None ==> b.latency_us is None,
        host_before(a, b, SortMode::Hostname) && a.hostname is None ==> b.hostname is None,
        a.latency_us == b.latency_us ==> (host_before(a, b, SortMode::Latency) <==> a.ip < b.ip),
        a.last_seen == b.last_seen ==> (host_before(a, b, SortMode::LastSeen) <==> a.ip < b.ip),
        (a.hostname matches Some(x) && b.hostname matches Some(y) && x@ == y@) ==> (host_before(
            a,
            b,
            SortMode::Hostname,
        ) <==> a.ip < b.ip),
{
    if a.hostname is Some && b.hostname is Some {
        lemma_seq_less_order(a.hostname->0@, a.hostname->0@, a.hostname->0@);
    }
}

/// The selection stays within the rows shown: clamping, moving down and
/// moving up always give a row of the table, whatever was selected before
/// (also a row of a longer table).
pub proof fn lemma_selection_in_range(sel: Option<usize>, len: usize)
    ensures
        clamped_selection(sel, len) matches Some(i) ==> i < len,
        len > 0 ==> (next_selection(sel, len) matches Some(i) && i < len),
        len > 0 ==> (prev_selection(sel, len) matches Some(j) && j < len),
{
}

/// The spinner frame stays one of the frames through any run of the
/// dashboard: `App::new` starts within them, `tick` always lands within
/// them, and every other step leaves the frame as it is.
pub proof fn lemma_spinner_frame_in_range(frame: usize)
    ensures
        (0 as usize) < SPINNER_FRAMES,
        frame < usize::MAX ==> (frame + 1) % (SPINNER_FRAMES as int) < SPINNER_FRAMES,
{
}

/// Lexicographic order: where two texts first differ, the one with the
/// smaller character there comes first, whatever their lengths.
pub proof fn lemma_seq_less_first_difference(a: Seq<char>, b: Seq<char>, i: int)
    requires
        0 <= i < a.len(),
        i < b.len(),
        a.subrange(0, i) == b.subrange(0, i),
        a[i] != b[i],
    ensures
        seq_less(a, b) == (a[i] < b[i]),
        seq_less(b, a) == (b[i] < a[i]),
    decreases i,
{
    if i > 0 {
        assert(a[0] == a.subrange(0, i)[0]);
        assert(b[0] == b.subrange(0, i)[0]);
        let (x, y) = (a.drop_first(), b.drop_first());
        assert(x.subrange(0, i - 1) =~= a.subrange(0, i).drop_first());
        assert(y.subrange(0, i - 1) =~= b.subrange(0, i).drop_first());
        lemma_seq_less_first_difference(x, y, i - 1);
    }
}

/// A proper prefix comes before the longer text.
pub proof fn lemma_seq_less_prefix(a: Seq<char>, b: Seq<char>)
    requires
        a.len() < b.len(),
        b.subrange(0, a.len() as int) == a,
    ensures
        seq_less(a, b),
        !seq_less(b, a),
    decreases a.len(),
{
    if a.len() > 0 {
        assert(b[0] == b.subrange(0, a.len() as int)[0]);
        assert(b.drop_first().subrange(0, a.len() - 1) =~= a.drop_first());
        lemma_seq_less_prefix(a.drop_first(), b.drop_first());
    }
}

/// In the hostname order, two named hosts whose names first differ at
/// position `i` come in the order of the characters there, whatever the
/// lengths of the names.
pub proof fn lemma_hostname_order_alphabetical(a: HostInfo, b: HostInfo, i: int)
    requires
        a.hostname is Some,
        b.hostname is Some,
        0 <= i < a.hostname->0@.len(),
        i < b.hostname->0@.len(),
        a.hostname->0@.subrange(0, i) == b.hostname->0@.subrange(0, i),
        a.hostname->0@[i] != b.hostname->0@[i],
    ensures
        host_before(a, b, SortMode::Hostname) == (a.hostname->0@[i] < b.hostname->0@[i]),
{
    lemma_seq_less_first_difference(a.hostname->0@, b.hostname->0@, i);
}

/// An offline host's status tells how long ago it was last seen: it is
/// "○ ", the age of `last_seen` at `now` and " ago". It depends on nothing
/// else of the host (not on when it was first seen), and moving both
/// `last_seen` and `now` by the same time leaves it as it is.
pub proof fn lemma_offline_status_since_last_seen(a: HostInfo, b: HostInfo, now: u64, d: u64)
    requires
        !a.online,
        !b.online,
        b.last_seen == a.last_seen + d,
        now + d <= u64::MAX,
    ensures
        status_of(a, now).0 == StatusKind::Offline,
        now >= a.last_seen ==> status_of(a, now).1 == "○ "@ + age_text(
            ((now - a.last_seen) / 1000) as nat,
        ) + " ago"@,
        status_of(a, now) == status_of(b, (now + d) as u64),
{
}

} // verus!
