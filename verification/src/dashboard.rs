//! The dashboard's state and logic: which listening TCP ports are shown and
//! in what order, which log lines are shown, when to rescan the ports, and
//! how the keyboard moves between tabs.
use vstd::prelude::*;

use crate::listener::elapsed;
use crate::text::{
    after_last,
    after_last_str,
    chars_of,
    lines,
    lines_str,
    parse_u16,
    parse_u16_str,
    split_whitespace_str,
    words,
};

verus! {

// ---------------------------------------------------------------------------
// Port table rows
// ---------------------------------------------------------------------------

/// One row of the network table.
pub struct PortRow {
    pub service: String,
    pub port: String,
    pub status: String,
}

pub struct PortRowModel {
    pub service: Seq<char>,
    pub port: Seq<char>,
    pub status: Seq<char>,
}

impl View for PortRow {
    type V = PortRowModel;

    open spec fn view(&self) -> PortRowModel {
        PortRowModel { service: self.service@, port: self.port@, status: self.status@ }
    }
}

/// The ports that development servers commonly listen on.
pub open spec fn is_dev_port(n: u16) -> bool {
    ||| 3000 <= n <= 3010
    ||| 4000 <= n <= 4010
    ||| n == 4200
    ||| n == 4321
    ||| 5000 <= n <= 5001
    ||| n == 5173
    ||| 8000 <= n <= 8080
    ||| n == 27017
}

pub fn is_dev_port_exec(n: u16) -> (b: bool)
    ensures
        b == is_dev_port(n),
{
    (3000 <= n && n <= 3010) || (4000 <= n && n <= 4010) || n == 4200 || n == 4321 || (5000 <= n
        && n <= 5001) || n == 5173 || (8000 <= n && n <= 8080) || n == 27017
}

/// The start of a row's service label: the kind of server the port suggests.
pub open spec fn service_prefix(n: u16) -> Seq<char> {
    if n == 5173 {
        "Vite ("@
    } else if n == 3000 {
        "React/Next ("@
    } else if 8000 <= n <= 8080 {
        "Node API ("@
    } else if n == 27017 {
        "MongoDB ("@
    } else if n == 4321 {
        "Astro ("@
    } else {
        "Dev Port ("@
    }
}

/// The service label: the server kind, then the listening command in brackets.
pub open spec fn service_name(n: u16, cmd: Seq<char>) -> Seq<char> {
    service_prefix(n) + cmd + ")"@
}

fn service_name_exec(n: u16, cmd: &str) -> (out: String)
    ensures
        out@ == service_name(n, cmd@),
{
    let prefix = if n == 5173 {
        "Vite ("
    } else if n == 3000 {
        "React/Next ("
    } else if 8000 <= n && n <= 8080 {
        "Node API ("
    } else if n == 27017 {
        "MongoDB ("
    } else if n == 4321 {
        "Astro ("
    } else {
        "Dev Port ("
    };
    let mut out = String::from_str(prefix);
    out.append(cmd);
    out.append(")");
    out
}

pub open spec fn has_char(s: Seq<char>, c: char) -> bool {
    exists|i: int| 0 <= i < s.len() && s[i] == c
}

fn has_char_exec(s: &str, c: char) -> (b: bool)
    ensures
        b == has_char(s@, c),
{
    let sc = chars_of(s);
    let mut i: usize = 0;
    while i < sc.len()
        invariant
            sc@ == s@,
            i <= sc@.len(),
            forall|k: int| 0 <= k < i ==> sc@[k] != c,
        decreases sc@.len() - i,
    {
        if sc[i] == c {
            return true;
        }
        i = i + 1;
    }
    false
}

/// The port a field of `lsof` output names: the number after its last colon,
/// for a field that has a colon.
pub open spec fn port_in_field(p: Seq<char>) -> Option<u16> {
    if has_char(p, ':') {
        parse_u16(after_last(p, ':'))
    } else {
        None
    }
}

/// The first field that names a port: its text after the last colon, and the
/// port number.
pub open spec fn first_port(fields: Seq<Seq<char>>) -> Option<(Seq<char>, u16)>
    decreases fields.len(),
{
    if fields.len() == 0 {
        None
    } else {
        match port_in_field(fields[0]) {
            Some(n) => Some((after_last(fields[0], ':'), n)),
            None => first_port(fields.skip(1)),
        }
    }
}

/// The table entry for one line of `lsof` output, keyed by its port number:
/// only lines that list a development port give one.
pub open spec fn line_entry(line: Seq<char>) -> Option<(u16, PortRowModel)> {
    let fields = words(line);
    if fields.len() == 0 {
        None
    } else {
        match first_port(fields) {
            Some((text, n)) => if is_dev_port(n) {
                Some(
                    (
                        n,
                        PortRowModel {
                            service: service_name(n, fields[0]),
                            port: text,
                            status: "ACTIVE"@,
                        },
                    ),
                )
            } else {
                None
            },
            None => None,
        }
    }
}

/// The entries of the given lines, in line order.
pub open spec fn scan_entries(ls: Seq<Seq<char>>) -> Seq<(u16, PortRowModel)>
    decreases ls.len(),
{
    if ls.len() == 0 {
        Seq::empty()
    } else {
        match line_entry(ls.last()) {
            Some(e) => scan_entries(ls.drop_last()).push(e),
            None => scan_entries(ls.drop_last()),
        }
    }
}

// ---------------------------------------------------------------------------
// Stable sorting by key
// ---------------------------------------------------------------------------

/// Where an entry with key `k` goes in `s`: before the first entry with a
/// larger key, so after every entry with an equal one.
pub open spec fn insert_pos<R>(k: u16, s: Seq<(u16, R)>) -> int
    decreases s.len(),
{
    if s.len() == 0 {
        0
    } else if k < s[0].0 {
        0
    } else {
        1 + insert_pos(k, s.skip(1))
    }
}

/// Insertion sort by key: stable, so entries with equal keys keep their order.
pub open spec fn sort_by_key<R>(s: Seq<(u16, R)>) -> Seq<(u16, R)>
    decreases s.len(),
{
    if s.len() == 0 {
        s
    } else {
        let t = sort_by_key(s.drop_last());
        t.insert(insert_pos(s.last().0, t), s.last())
    }
}

pub open spec fn sorted_by_key<R>(s: Seq<(u16, R)>) -> bool {
    forall|i: int, j: int| 0 <= i <= j < s.len() ==> s[i].0 <= s[j].0
}

pub proof fn lemma_insert_pos<R>(k: u16, s: Seq<(u16, R)>)
    ensures
        0 <= insert_pos(k, s) <= s.len(),
        forall|i: int| 0 <= i < insert_pos(k, s) ==> #[trigger] s[i].0 <= k,
        insert_pos(k, s) < s.len() ==> k < s[insert_pos(k, s)].0,
    decreases s.len(),
{
    if s.len() > 0 && !(k < s[0].0) {
        let t = s.skip(1);
        lemma_insert_pos(k, t);
        assert forall|i: int| 0 <= i < insert_pos(k, s) implies #[trigger] s[i].0 <= k by {
            if i > 0 {
                assert(s[i] == t[i - 1]);
            }
        }
    }
}

/// Sorting by key yields entries in ascending key order.
pub proof fn lemma_sort_sorted<R>(s: Seq<(u16, R)>)
    ensures
        sorted_by_key(sort_by_key(s)),
        sort_by_key(s).len() == s.len(),
    decreases s.len(),
{
    if s.len() > 0 {
        let t = sort_by_key(s.drop_last());
        lemma_sort_sorted(s.drop_last());
        let e = s.last();
        let p = insert_pos(e.0, t);
        lemma_insert_pos(e.0, t);
        let u = t.insert(p, e);
        assert forall|i: int, j: int| 0 <= i <= j < u.len() implies u[i].0 <= u[j].0 by {
            if i < p && j < p {
                assert(u[i] == t[i] && u[j] == t[j]);
            } else if i < p && j == p {
                assert(u[i] == t[i]);
            } else if i < p {
                assert(u[i] == t[i] && u[j] == t[j - 1]);
            } else if i == p && j > p {
                assert(u[j] == t[j - 1]);
                assert(t[p].0 <= t[j - 1].0);
            } else if i > p {
                assert(u[i] == t[i - 1] && u[j] == t[j - 1]);
            }
        }
    }
}

/// Sorting by key keeps every entry, as many times as it occurs.
pub proof fn lemma_sort_permutes<R>(s: Seq<(u16, R)>)
    ensures
        sort_by_key(s).to_multiset() == s.to_multiset(),
    decreases s.len(),
{
    broadcast use vstd::seq_lib::group_to_multiset_ensures;

    if s.len() > 0 {
        let t = sort_by_key(s.drop_last());
        lemma_sort_permutes(s.drop_last());
        lemma_insert_pos(s.last().0, t);
        assert(s.drop_last().push(s.last()) =~= s);
    }
}

// ---------------------------------------------------------------------------
// The port table
// ---------------------------------------------------------------------------

/// The row shown when no development port is listening.
pub open spec fn idle_row() -> PortRowModel {
    PortRowModel { service: "System Clear"@, port: "---"@, status: "IDLE"@ }
}

/// The lines after the header line.
pub open spec fn after_header(ls: Seq<Seq<char>>) -> Seq<Seq<char>> {
    if ls.len() == 0 {
        ls
    } else {
        ls.skip(1)
    }
}

/// The sorted entries that `lsof -iTCP -sTCP:LISTEN -P -n` output gives.
pub open spec fn port_entries(stdout: Seq<char>) -> Seq<(u16, PortRowModel)> {
    sort_by_key(scan_entries(after_header(lines(stdout))))
}

/// The network table for `lsof -iTCP -sTCP:LISTEN -P -n` output: one row per
/// listed development port, in ascending port order, or the idle row alone.
pub open spec fn listening_ports(stdout: Seq<char>) -> Seq<PortRowModel> {
    let entries = port_entries(stdout);
    if entries.len() == 0 {
        seq![idle_row()]
    } else {
        entries.map_values(|e: (u16, PortRowModel)| e.1)
    }
}

fn first_port_exec<'a>(fields: &Vec<&'a str>) -> (r: Option<(&'a str, u16)>)
    ensures
        match r {
            Some((t, n)) => first_port(fields@.map_values(|f: &str| f@)) == Some((t@, n)),
            None => first_port(fields@.map_values(|f: &str| f@)) is None,
        },
{
    let ghost fs = fields@.map_values(|f: &str| f@);
    let mut i: usize = 0;
    assert(fs.skip(0) =~= fs);
    while i < fields.len()
        invariant
            fs == fields@.map_values(|f: &str| f@),
            i <= fields@.len(),
            first_port(fs) == first_port(fs.skip(i as int)),
        decreases fields@.len() - i,
    {
        let f = fields[i];
        let ghost t = fs.skip(i as int);
        assert(t[0] == f@);
        if has_char_exec(f, ':') {
            let tail = after_last_str(f, ':');
            if let Some(n) = parse_u16_str(tail) {
                return Some((tail, n));
            }
        }
        assert(t.skip(1) =~= fs.skip(i + 1));
        i = i + 1;
    }
    None
}

fn line_entry_exec(line: &str) -> (r: Option<(u16, PortRow)>)
    ensures
        match r {
            Some((n, row)) => line_entry(line@) == Some((n, row@)),
            None => line_entry(line@) is None,
        },
{
    let fields = split_whitespace_str(line);
    let ghost fs = fields@.map_values(|f: &str| f@);
    assert(fs =~= words(line@));
    if fields.len() == 0 {
        return None;
    }
    match first_port_exec(&fields) {
        Some((text, n)) => {
            if is_dev_port_exec(n) {
                let row = PortRow {
                    service: service_name_exec(n, fields[0]),
                    port: String::from_str(text),
                    status: String::from_str("ACTIVE"),
                };
                Some((n, row))
            } else {
                None
            }
        },
        None => None,
    }
}

/// Builds the network table from the output of `lsof -iTCP -sTCP:LISTEN -P -n`.
pub fn parse_listening_ports(stdout: &str) -> (rows: Vec<PortRow>)
    ensures
        rows@.len() == listening_ports(stdout@).len(),
        forall|k: int| 0 <= k < rows@.len() ==> #[trigger] rows@[k]@ == listening_ports(stdout@)[k],
{
    let ls = lines_str(stdout);
    let ghost lv = lines(stdout@);
    let mut keys: Vec<u16> = Vec::new();
    let mut rows: Vec<PortRow> = Vec::new();
    let ghost mut sorted: Seq<(u16, PortRowModel)> = Seq::empty();
    let mut i: usize = 1;
    proof {
        if lv.len() > 0 {
            assert(scan_entries(lv.subrange(1, 1)) == Seq::<(u16, PortRowModel)>::empty());
        }
    }
    while i < ls.len()
        invariant
            ls@.len() == lv.len(),
            forall|k: int| 0 <= k < ls@.len() ==> #[trigger] ls@[k]@ == lv[k],
            1 <= i,
            lv.len() > 0 ==> i <= lv.len(),
            lv.len() > 0 ==> sorted == sort_by_key(scan_entries(lv.subrange(1, i as int))),
            lv.len() == 0 ==> sorted.len() == 0,
            keys@.len() == sorted.len(),
            rows@.len() == sorted.len(),
            forall|k: int| 0 <= k < sorted.len() ==> #[trigger] keys@[k] == sorted[k].0,
            forall|k: int| 0 <= k < sorted.len() ==> #[trigger] rows@[k]@ == sorted[k].1,
        decreases ls@.len() - i,
    {
        let ghost prefix = lv.subrange(1, i + 1);
        proof {
            assert(prefix.drop_last() =~= lv.subrange(1, i as int));
            assert(prefix.last() == lv[i as int]);
        }
        match line_entry_exec(ls[i]) {
            Some((n, row)) => {
                let ghost e = (n, row@);
                let mut j: usize = 0;
                assert(sorted.skip(0) =~= sorted);
                while j < keys.len() && !(n < keys[j])
                    invariant
                        keys@.len() == sorted.len(),
                        forall|k: int| 0 <= k < sorted.len() ==> #[trigger] keys@[k] == sorted[k].0,
                        j <= keys@.len(),
                        insert_pos(n, sorted) == j + insert_pos(n, sorted.skip(j as int)),
                    decreases keys@.len() - j,
                {
                    proof {
                        assert(sorted.skip(j as int)[0] == sorted[j as int]);
                        assert(sorted.skip(j as int).skip(1) =~= sorted.skip(j + 1));
                    }
                    j = j + 1;
                }
                proof {
                    if j < keys@.len() {
                        assert(sorted.skip(j as int)[0] == sorted[j as int]);
                    }
                    assert(insert_pos(n, sorted) == j);
                }
                keys.insert(j, n);
                rows.insert(j, row);
                proof {
                    let ns = sorted.insert(j as int, e);
                    assert forall|k: int| 0 <= k < ns.len() implies #[trigger] keys@[k] == ns[k].0 by {
                        if k < j {
                            assert(ns[k] == sorted[k]);
                        } else if k > j {
                            assert(ns[k] == sorted[k - 1]);
                        }
                    }
                    assert forall|k: int| 0 <= k < ns.len() implies #[trigger] rows@[k]@ == ns[k].1 by {
                        if k < j {
                            assert(ns[k] == sorted[k]);
                        } else if k > j {
                            assert(ns[k] == sorted[k - 1]);
                        }
                    }
                    let x = scan_entries(lv.subrange(1, i as int));
                    assert(scan_entries(prefix) == x.push(e));
                    assert(x.push(e).drop_last() =~= x);
                    assert(x.push(e).last() == e);
                    sorted = ns;
                }
            },
            None => {
                assert(scan_entries(prefix) == scan_entries(lv.subrange(1, i as int)));
            },
        }
        i = i + 1;
    }
    proof {
        if lv.len() > 0 {
            assert(lv.subrange(1, lv.len() as int) =~= after_header(lv));
        } else {
            assert(scan_entries(after_header(lv)) =~= Seq::<(u16, PortRowModel)>::empty());
        }
        assert(sorted == port_entries(stdout@));
    }
    if rows.len() == 0 {
        let mut idle: Vec<PortRow> = Vec::new();
        idle.push(
            PortRow {
                service: String::from_str("System Clear"),
                port: String::from_str("---"),
                status: String::from_str("IDLE"),
            },
        );
        idle
    } else {
        rows
    }
}

// ---------------------------------------------------------------------------
// Laws of the port table
// ---------------------------------------------------------------------------

proof fn lemma_first_port_parses(fields: Seq<Seq<char>>)
    ensures
        first_port(fields) matches Some((t, n)) ==> parse_u16(t) == Some(n),
    decreases fields.len(),
{
    if fields.len() > 0 && port_in_field(fields[0]) is None {
        lemma_first_port_parses(fields.skip(1));
    }
}

/// What every entry of the table satisfies: its port text reads as its key,
/// the key is a development port, and the row is marked active.
pub open spec fn good_entry(e: (u16, PortRowModel)) -> bool {
    &&& parse_u16(e.1.port) == Some(e.0)
    &&& is_dev_port(e.0)
    &&& e.1.status == "ACTIVE"@
}

proof fn lemma_scan_entries_good(ls: Seq<Seq<char>>)
    ensures
        forall|k: int| 0 <= k < scan_entries(ls).len() ==> good_entry(#[trigger] scan_entries(ls)[k]),
    decreases ls.len(),
{
    if ls.len() > 0 {
        lemma_scan_entries_good(ls.drop_last());
        lemma_first_port_parses(words(ls.last()));
        let prev = scan_entries(ls.drop_last());
        match line_entry(ls.last()) {
            Some(e) => {
                assert(good_entry(e));
                assert forall|k: int| 0 <= k < prev.push(e).len() implies good_entry(
                    #[trigger] prev.push(e)[k],
                ) by {
                    if k < prev.len() {
                        assert(prev.push(e)[k] == prev[k]);
                    }
                }
            },
            None => {},
        }
    }
}

proof fn lemma_sort_keeps_good(s: Seq<(u16, PortRowModel)>)
    requires
        forall|k: int| 0 <= k < s.len() ==> good_entry(#[trigger] s[k]),
    ensures
        forall|k: int| 0 <= k < sort_by_key(s).len() ==> good_entry(#[trigger] sort_by_key(s)[k]),
    decreases s.len(),
{
    if s.len() > 0 {
        let t = sort_by_key(s.drop_last());
        lemma_sort_keeps_good(s.drop_last());
        lemma_insert_pos(s.last().0, t);
        let p = insert_pos(s.last().0, t);
        let u = t.insert(p, s.last());
        assert forall|k: int| 0 <= k < u.len() implies good_entry(#[trigger] u[k]) by {
            if k < p {
                assert(u[k] == t[k]);
            } else if k > p {
                assert(u[k] == t[k - 1]);
            }
        }
    }
}

/// The network table lists development ports only, each marked active, in
/// ascending port order; when there is none it shows the idle row alone.
pub proof fn law_port_table_sorted_dev_ports(stdout: Seq<char>)
    ensures
        port_entries(stdout).len() == 0 ==> listening_ports(stdout) == seq![idle_row()],
        port_entries(stdout).len() > 0 ==> {
            let rows = listening_ports(stdout);
            &&& rows.len() == port_entries(stdout).len()
            &&& forall|k: int|
                0 <= k < rows.len() ==> (#[trigger] parse_u16(rows[k].port)) is Some && is_dev_port(
                    parse_u16(rows[k].port)->0,
                ) && rows[k].status == "ACTIVE"@
            &&& forall|i: int, j: int|
                0 <= i <= j < rows.len() ==> parse_u16(rows[i].port)->0 <= parse_u16(rows[j].port)->0
        },
{
    let s = scan_entries(after_header(lines(stdout)));
    lemma_scan_entries_good(after_header(lines(stdout)));
    lemma_sort_keeps_good(s);
    lemma_sort_sorted(s);
    let es = port_entries(stdout);
    if es.len() > 0 {
        let rows = listening_ports(stdout);
        assert forall|k: int| 0 <= k < rows.len() implies rows[k] == es[k].1 && good_entry(es[k]) by {}
        assert forall|i: int, j: int| 0 <= i <= j < rows.len() implies parse_u16(rows[i].port)->0
            <= parse_u16(rows[j].port)->0 by {
            assert(good_entry(es[i]) && good_entry(es[j]));
            assert(rows[i] == es[i].1 && rows[j] == es[j].1);
        }
    }
}

/// The table holds exactly the development-port entries of the listed lines,
/// each as often as it occurs: sorting drops and invents nothing.
pub proof fn law_port_table_keeps_entries(stdout: Seq<char>)
    ensures
        port_entries(stdout).to_multiset() == scan_entries(after_header(lines(stdout))).to_multiset(),
{
    lemma_sort_permutes(scan_entries(after_header(lines(stdout))));
}

// ---------------------------------------------------------------------------
// Dashboard state
// ---------------------------------------------------------------------------

/// The number of tabs.
pub const TAB_COUNT: usize = 3;

/// How many of the newest log lines the dashboard shows.
pub const LOG_TAIL_LINES: usize = 10;

/// The shortest time between two port scans (2 s).
pub const SCAN_INTERVAL_NS: u64 = 2_000_000_000;

/// A key press.
pub enum Key {
    Char(char),
    Left,
    Right,
    Other,
}

/// The tab selected after a key press.
pub open spec fn tab_after(tab: nat, key: Key) -> nat {
    match key {
        Key::Right => (tab + 1) % 3,
        Key::Left => (tab + 2) % 3,
        Key::Char(c) => if c == '1' {
            0
        } else if c == '2' {
            1
        } else if c == '3' {
            2
        } else {
            tab
        },
        Key::Other => tab,
    }
}

/// The key that closes the dashboard.
pub open spec fn quits(key: Key) -> bool {
    key == Key::Char('q')
}

/// Whether a port scan is due at `now`, given when the last one began.
pub open spec fn scan_due(last: Option<u64>, now: u64) -> bool {
    match last {
        None => true,
        Some(t) => elapsed(now, t) >= SCAN_INTERVAL_NS,
    }
}

/// At most the last `n` elements of `s`.
pub open spec fn last_n<A>(s: Seq<A>, n: nat) -> Seq<A> {
    if s.len() <= n {
        s
    } else {
        s.skip(s.len() - n)
    }
}

pub open spec fn string_views(s: Seq<String>) -> Seq<Seq<char>> {
    s.map_values(|l: String| l@)
}

pub open spec fn row_views(s: Seq<PortRow>) -> Seq<PortRowModel> {
    s.map_values(|r: PortRow| r@)
}

/// What the dashboard shows besides the live telemetry.
pub struct Dashboard {
    voice_logs: Vec<String>,
    active_ports: Vec<PortRow>,
    last_port_scan_ns: Option<u64>,
    active_tab: usize,
}

pub struct DashboardModel {
    pub voice_logs: Seq<Seq<char>>,
    pub active_ports: Seq<PortRowModel>,
    pub last_port_scan_ns: Option<u64>,
    pub active_tab: nat,
}

impl View for Dashboard {
    type V = DashboardModel;

    closed spec fn view(&self) -> DashboardModel {
        DashboardModel {
            voice_logs: string_views(self.voice_logs@),
            active_ports: row_views(self.active_ports@),
            last_port_scan_ns: self.last_port_scan_ns,
            active_tab: self.active_tab as nat,
        }
    }
}

impl Dashboard {
    #[verifier::type_invariant]
    closed spec fn tab_in_range(self) -> bool {
        self.active_tab < TAB_COUNT
    }

    /// The dashboard at start-up: one greeting log line, no ports yet, a port
    /// scan due, the first tab selected.
    pub fn new() -> (d: Self)
        ensures
            d@.voice_logs == seq!["[System] Core initialized."@],
            d@.active_ports == Seq::<PortRowModel>::empty(),
            d@.last_port_scan_ns is None,
            d@.active_tab == 0,
    {
        let mut logs: Vec<String> = Vec::new();
        logs.push(String::from_str("[System] Core initialized."));
        let d = Dashboard { voice_logs: logs, active_ports: Vec::new(), last_port_scan_ns: None, active_tab: 0 };
        assert(d@.voice_logs =~= seq!["[System] Core initialized."@]);
        assert(d@.active_ports =~= Seq::<PortRowModel>::empty());
        d
    }

    pub fn voice_logs(&self) -> (r: &Vec<String>)
        ensures
            string_views(r@) == self@.voice_logs,
    {
        &self.voice_logs
    }

    pub fn active_ports(&self) -> (r: &Vec<PortRow>)
        ensures
            row_views(r@) == self@.active_ports,
    {
        &self.active_ports
    }

    pub fn active_tab(&self) -> (r: usize)
        ensures
            r == self@.active_tab,
            r < TAB_COUNT,
    {
        proof {
            use_type_invariant(self);
        }
        self.active_tab
    }

    /// Decides whether to scan the ports at `now_ns`; when it does, records
    /// the scan as begun.
    pub fn start_port_scan(&mut self, now_ns: u64) -> (due: bool)
        ensures
            due == scan_due(old(self)@.last_port_scan_ns, now_ns),
            final(self)@ == (if due {
                DashboardModel { last_port_scan_ns: Some(now_ns), ..old(self)@ }
            } else {
                old(self)@
            }),
    {
        proof {
            use_type_invariant(&*self);
        }
        let due = match self.last_port_scan_ns {
            None => true,
            Some(t) => {
                let e: u64 = if now_ns >= t {
                    now_ns - t
                } else {
                    0
                };
                e >= SCAN_INTERVAL_NS
            },
        };
        if due {
            self.last_port_scan_ns = Some(now_ns);
        }
        due
    }

    /// Replaces the network table with the one that a scan's output gives.
    pub fn apply_port_scan(&mut self, stdout: &str)
        ensures
            final(self)@ == (DashboardModel { active_ports: listening_ports(stdout@), ..old(self)@ }),
    {
        proof {
            use_type_invariant(&*self);
        }
        let rows = parse_listening_ports(stdout);
        self.active_ports = rows;
        assert(row_views(self.active_ports@) =~= listening_ports(stdout@));
    }

    /// Shows the newest lines of the shared log, unless the log is empty.
    pub fn apply_log_lines(&mut self, lines: Vec<String>)
        ensures
            ({
                let tail = last_n(string_views(lines@), LOG_TAIL_LINES as nat);
                final(self)@ == (if tail.len() > 0 {
                    DashboardModel { voice_logs: tail, ..old(self)@ }
                } else {
                    old(self)@
                })
            }),
    {
        proof {
            use_type_invariant(&*self);
        }
        let n = lines.len();
        if n == 0 {
            assert(string_views(lines@).len() == 0);
            return;
        }
        let start: usize = if n > LOG_TAIL_LINES {
            n - LOG_TAIL_LINES
        } else {
            0
        };
        let mut lines = lines;
        let ghost all = lines@;
        let tail = lines.split_off(start);
        assert(string_views(tail@) =~= last_n(string_views(all), LOG_TAIL_LINES as nat));
        self.voice_logs = tail;
    }

    /// Handles a key press; `true` when the key closes the dashboard.
    pub fn handle_key(&mut self, key: Key) -> (quit: bool)
        ensures
            quit == quits(key),
            final(self)@ == (DashboardModel {
                active_tab: tab_after(old(self)@.active_tab, key),
                ..old(self)@
            }),
    {
        proof {
            use_type_invariant(&*self);
        }
        match key {
            Key::Char(c) => {
                if c == 'q' {
                    return true;
                } else if c == '1' {
                    self.active_tab = 0;
                } else if c == '2' {
                    self.active_tab = 1;
                } else if c == '3' {
                    self.active_tab = 2;
                }
            },
            Key::Right => {
                self.active_tab = (self.active_tab + 1) % TAB_COUNT;
            },
            Key::Left => {
                self.active_tab = (self.active_tab + 2) % TAB_COUNT;
            },
            Key::Other => {},
        }
        false
    }
}

// ---------------------------------------------------------------------------
// Laws of the dashboard
// ---------------------------------------------------------------------------

/// Every key press leaves a valid tab selected.
pub proof fn law_tab_stays_in_range(tab: nat, key: Key)
    requires
        tab < TAB_COUNT,
    ensures
        tab_after(tab, key) < TAB_COUNT,
{
}

/// Left undoes Right and Right undoes Left: the tabs wrap around both ways.
pub proof fn law_left_undoes_right(tab: nat)
    requires
        tab < TAB_COUNT,
    ensures
        tab_after(tab_after(tab, Key::Right), Key::Left) == tab,
        tab_after(tab_after(tab, Key::Left), Key::Right) == tab,
{
}

/// Three presses of Right come back to the same tab.
pub proof fn law_right_cycles(tab: nat)
    requires
        tab < TAB_COUNT,
    ensures
        tab_after(tab_after(tab_after(tab, Key::Right), Key::Right), Key::Right) == tab,
{
}

/// The log view never holds more than the newest `LOG_TAIL_LINES` lines, and
/// they are the log's last lines in order.
pub proof fn law_log_tail(s: Seq<Seq<char>>)
    ensures
        last_n(s, LOG_TAIL_LINES as nat).len() == if s.len() <= 10 {
            s.len()
        } else {
            10
        },
        last_n(s, LOG_TAIL_LINES as nat) == s.subrange(
            s.len() - last_n(s, LOG_TAIL_LINES as nat).len(),
            s.len() as int,
        ),
{
    assert(last_n(s, LOG_TAIL_LINES as nat) =~= s.subrange(
        s.len() - last_n(s, LOG_TAIL_LINES as nat).len(),
        s.len() as int,
    ));
}

/// A scan that begins at `now` is not due again until the interval has passed.
pub proof fn law_scans_are_spaced(now: u64, later: u64)
    requires
        now <= later,
        later - now < SCAN_INTERVAL_NS,
    ensures
        !scan_due(Some(now), later),
{
}

/// The development ports are exactly 3000-3010, 4000-4010, 4200, 4321,
/// 5000-5001, 5173, 8000-8080 and 27017.
pub proof fn law_dev_ports_are_the_listed_ranges(n: u16)
    ensures
        is_dev_port(n) <==> (3000 <= n <= 3010 || 4000 <= n <= 4010 || n == 4200 || n == 4321 || (5000
            <= n <= 5001) || n == 5173 || (8000 <= n <= 8080) || n == 27017),
{
}

/// The label of each development port: Vite on 5173, React/Next on 3000,
/// Node API on 8000-8080, MongoDB on 27017, Astro on 4321, Dev Port
/// otherwise; each followed by the listening command in brackets.
pub proof fn law_service_labels(n: u16, cmd: Seq<char>)
    ensures
        n == 5173 ==> service_name(n, cmd) == "Vite ("@ + cmd + ")"@,
        n == 3000 ==> service_name(n, cmd) == "React/Next ("@ + cmd + ")"@,
        8000 <= n <= 8080 ==> service_name(n, cmd) == "Node API ("@ + cmd + ")"@,
        n == 27017 ==> service_name(n, cmd) == "MongoDB ("@ + cmd + ")"@,
        n == 4321 ==> service_name(n, cmd) == "Astro ("@ + cmd + ")"@,
        n != 5173 && n != 3000 && !(8000 <= n <= 8080) && n != 27017 && n != 4321 ==> service_name(
            n,
            cmd,
        ) == "Dev Port ("@ + cmd + ")"@,
{
}

/// A line of `lsof` output whose first port-bearing field names port `n`
/// gives a table row exactly when `n` is in one of the development ranges;
/// that row shows the field's port text, is marked active, and is labelled
/// after the line's command.
pub proof fn law_line_gives_row_for_dev_ports(line: Seq<char>, text: Seq<char>, n: u16)
    requires
        words(line).len() > 0,
        first_port(words(line)) == Some((text, n)),
    ensures
        line_entry(line) is Some <==> (3000 <= n <= 3010 || 4000 <= n <= 4010 || n == 4200 || n == 4321
            || (5000 <= n <= 5001) || n == 5173 || (8000 <= n <= 8080) || n == 27017),
        line_entry(line) matches Some(e) ==> {
            &&& e.0 == n
            &&& e.1.port == text
            &&& e.1.status == "ACTIVE"@
            &&& e.1.service == service_name(n, words(line)[0])
        },
{
}

/// The number keys select their tab, whichever tab was selected.
pub proof fn law_number_keys_select_tabs(tab: nat)
    requires
        tab < TAB_COUNT,
    ensures
        tab_after(tab, Key::Char('1')) == 0,
        tab_after(tab, Key::Char('2')) == 1,
        tab_after(tab, Key::Char('3')) == 2,
{
}

proof fn lemma_insert_pos_at_end<R>(k: u16, s: Seq<(u16, R)>)
    requires
        forall|i: int| 0 <= i < s.len() ==> #[trigger] s[i].0 <= k,
    ensures
        insert_pos(k, s) == s.len(),
    decreases s.len(),
{
    if s.len() > 0 {
        let t = s.skip(1);
        assert forall|i: int| 0 <= i < t.len() implies #[trigger] t[i].0 <= k by {
            assert(t[i] == s[i + 1]);
        }
        lemma_insert_pos_at_end(k, t);
    }
}

/// Sorting is stable: entries already in key order, equal keys included,
/// stay exactly as they are.
pub proof fn law_sort_keeps_sorted_input<R>(s: Seq<(u16, R)>)
    requires
        sorted_by_key(s),
    ensures
        sort_by_key(s) == s,
    decreases s.len(),
{
    if s.len() > 0 {
        let init = s.drop_last();
        assert(sorted_by_key(init));
        law_sort_keeps_sorted_input(init);
        assert forall|i: int| 0 <= i < init.len() implies #[trigger] init[i].0 <= s.last().0 by {}
        lemma_insert_pos_at_end(s.last().0, init);
        assert(init.insert(init.len() as int, s.last()) =~= s);
    }
}

/// The idle row reads "System Clear", "---", "IDLE".
pub proof fn law_idle_row_text(stdout: Seq<char>)
    ensures
        port_entries(stdout).len() == 0 ==> listening_ports(stdout) == seq![
            PortRowModel { service: "System Clear"@, port: "---"@, status: "IDLE"@ },
        ],
{
}

/// Only "q" closes the dashboard.
pub proof fn law_only_q_quits(key: Key)
    ensures
        quits(key) <==> key == Key::Char('q'),
{
}

/// The dashboard's fixed numbers: three tabs, the newest ten log lines, and
/// port scans at least two seconds apart.
pub proof fn law_dashboard_constants()
    ensures
        TAB_COUNT == 3,
        LOG_TAIL_LINES == 10,
        SCAN_INTERVAL_NS == 2_000_000_000,
{
}

/// A first scan is always due; a later one is due once the interval has
/// passed since the last scan began.
pub proof fn law_scan_due_after_interval(last: u64, now: u64)
    ensures
        scan_due(None, now),
        now >= last && now - last >= 2_000_000_000 ==> scan_due(Some(last), now),
{
}

/// The port of a line is read from the first field that has a colon and
/// whose text after its last colon is a port number; fields before it have
/// no colon, or no number after their last colon.
pub proof fn law_first_port_is_first_numbered_field(fields: Seq<Seq<char>>)
    ensures
        first_port(fields) matches Some((text, n)) ==> exists|k: int|
            #![trigger fields[k]]
            0 <= k < fields.len() && has_char(fields[k], ':') && text == after_last(fields[k], ':')
                && parse_u16(text) == Some(n) && forall|j: int|
                0 <= j < k ==> !has_char(#[trigger] fields[j], ':') || parse_u16(
                    after_last(fields[j], ':'),
                ) is None,
        first_port(fields) is None ==> forall|j: int|
            0 <= j < fields.len() ==> !has_char(#[trigger] fields[j], ':') || parse_u16(
                after_last(fields[j], ':'),
            ) is None,
    decreases fields.len(),
{
    if fields.len() > 0 {
        let rest = fields.skip(1);
        law_first_port_is_first_numbered_field(rest);
        if port_in_field(fields[0]) is None {
            if first_port(fields) is Some {
                let (text, n) = first_port(fields)->0;
                let k = choose|k: int|
                    #![trigger rest[k]]
                    0 <= k < rest.len() && has_char(rest[k], ':') && text == after_last(rest[k], ':')
                        && parse_u16(text) == Some(n) && forall|j: int|
                        0 <= j < k ==> !has_char(#[trigger] rest[j], ':') || parse_u16(
                            after_last(rest[j], ':'),
                        ) is None;
                assert(fields[k + 1] == rest[k]);
                assert forall|j: int| 0 <= j < k + 1 implies !has_char(#[trigger] fields[j], ':')
                    || parse_u16(after_last(fields[j], ':')) is None by {
                    if j > 0 {
                        assert(fields[j] == rest[j - 1]);
                    }
                }
            } else {
                assert forall|j: int| 0 <= j < fields.len() implies !has_char(
                    #[trigger] fields[j],
                    ':',
                ) || parse_u16(after_last(fields[j], ':')) is None by {
                    if j > 0 {
                        assert(fields[j] == rest[j - 1]);
                    }
                }
            }
        } else {
            assert(fields[0] == fields[0]);
        }
    }
}

} // verus!
