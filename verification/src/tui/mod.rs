//! The live monitor: what it remembers, how it reacts, and what its panels show.

pub mod history;
pub mod layout;
pub mod panels;

use crate::clock::clock_text;
use crate::protocol::{law_short_forms, mac_short, MacAddr};
use crate::text::{append_decimal, decimal};
use crate::types::{link_views, LinkView, NetworkScan, ScanView};
use history::{
    bounded, history_map, ordered, with_sample, EntryView, History, Samples, MAX_HISTORY,
};
use vstd::prelude::*;
use vstd::string::*;

verus! {

/// Signals the scanner thread should do an immediate rescan.
#[derive(Debug, Clone, Copy, PartialEq, Eq, Structural)]
pub enum TuiCommand {
    Rescan,
}

/// A key that was pressed.
#[derive(Debug, Clone, Copy, PartialEq, Eq, Structural)]
pub enum Key {
    Char(char),
    Esc,
    Tab,
    Other,
}

/// The state of the monitor.
pub struct App {
    pub current: Option<NetworkScan>,
    /// Per-link history of speeds and signal types.
    pub history: History,
    /// Somebody listens for commands.
    pub attached: bool,
    pub quit: bool,
    pub status: String,
    pub scan_count: u32,
    /// Which link to show in the sparkline (index into the ordered history).
    pub selected_link: usize,
    /// Show the diagnostics panel.
    pub show_diag: bool,
}

pub struct AppView {
    pub current: Option<ScanView>,
    pub history: Seq<EntryView>,
    pub attached: bool,
    pub quit: bool,
    pub status: Seq<char>,
    pub scan_count: u32,
    pub selected_link: usize,
    pub show_diag: bool,
}

impl View for App {
    type V = AppView;

    open spec fn view(&self) -> AppView {
        AppView {
            current: match self.current {
                Some(scan) => Some(scan@),
                None => None,
            },
            history: self.history@,
            attached: self.attached,
            quit: self.quit,
            status: self.status@,
            scan_count: self.scan_count,
            selected_link: self.selected_link,
            show_diag: self.show_diag,
        }
    }
}

impl AppView {
    /// The selected link is one of those that were seen, once one was.
    pub open spec fn valid(self) -> bool {
        self.selected_link == 0 || self.selected_link < self.history.len()
    }

    /// The monitor after a key was pressed.
    pub open spec fn after_key(self, key: Key) -> AppView {
        if key == Key::Char('q') || key is Esc {
            AppView { quit: true, ..self }
        } else if key == Key::Char('r') && self.attached {
            AppView { status: "Rescanning..."@, ..self }
        } else if key == Key::Char('d') {
            AppView { show_diag: !self.show_diag, ..self }
        } else if (key is Tab || key == Key::Char('n')) && self.history.len() > 0 {
            AppView {
                selected_link: ((self.selected_link + 1) % (self.history.len() as int)) as usize,
                ..self
            }
        } else {
            self
        }
    }
}

/// `n` of something, with the ending of the plural where `n` is not one.
pub open spec fn counted(n: nat, name: Seq<char>) -> Seq<char> {
    decimal(n) + name + if n == 1 {
        Seq::empty()
    } else {
        "s"@
    }
}

/// The status after the n-th scan.
pub open spec fn scan_status(n: u32, scan: ScanView) -> Seq<char> {
    "#"@ + decimal(n as nat) + " — "@ + counted(scan.devices.len(), " device"@) + ", "@ + counted(
        scan.links.len(),
        " link"@,
    ) + "  ("@ + clock_text(scan.timestamp.second_of_day(), scan.timestamp.leap()) + ")"@
}

/// The samples of each link after those of `links`.
pub open spec fn after_links(
    map: Map<(Seq<char>, Seq<char>), Samples>,
    links: Seq<LinkView>,
) -> Map<(Seq<char>, Seq<char>), Samples>
    decreases links.len(),
{
    if links.len() == 0 {
        map
    } else {
        let l = links.last();
        with_sample(
            after_links(map, links.drop_last()),
            (mac_short(l.from), mac_short(l.to)),
            l.tx_mbps,
            l.tx_signal,
        )
    }
}

fn append_counted(out: &mut String, n: usize, name: &str)
    ensures
        final(out)@ == old(out)@ + counted(n as nat, name@),
{
    let ghost start = out@;
    append_decimal(out, n as u64);
    out.append(name);
    if n != 1 {
        out.append("s");
    }
    assert(out@ == start + counted(n as nat, name@));
}

impl App {
    /// A monitor that has not seen a scan yet.
    pub fn new() -> (r: Self)
        ensures
            r@ == (AppView {
                current: None,
                history: Seq::empty(),
                attached: false,
                quit: false,
                status: "Waiting for first scan..."@,
                scan_count: 0,
                selected_link: 0,
                show_diag: true,
            }),
            r@.valid(),
            history_map(r@.history) == Map::<(Seq<char>, Seq<char>), Samples>::empty(),
    {
        App {
            current: None,
            history: History::new(),
            attached: false,
            quit: false,
            status: String::from_str("Waiting for first scan..."),
            scan_count: 0,
            selected_link: 0,
            show_diag: true,
        }
    }

    /// Attach a listener for commands, so that the monitor can trigger rescans.
    pub fn with_cmd_tx(self) -> (r: Self)
        ensures
            r@ == (AppView { attached: true, ..self@ }),
    {
        let mut app = self;
        app.attached = true;
        app
    }

    /// A key was pressed; returns the command to send, if there is one.
    pub fn on_key(&mut self, key: Key) -> (r: Option<TuiCommand>)
        requires
            old(self)@.valid(),
        ensures
            final(self)@ == old(self)@.after_key(key),
            final(self)@.valid(),
            r == if key == Key::Char('r') && old(self)@.attached {
                Some(TuiCommand::Rescan)
            } else {
                None
            },
    {
        match key {
            Key::Char('q') | Key::Esc => {
                self.quit = true;
            },
            Key::Char('r') => {
                if self.attached {
                    self.status = String::from_str("Rescanning...");
                    return Some(TuiCommand::Rescan);
                }
            },
            Key::Char('d') => {
                self.show_diag = !self.show_diag;
            },
            Key::Tab | Key::Char('n') => {
                let n = self.history.len();
                if n > 0 {
                    self.selected_link = (self.selected_link + 1) % n;
                }
            },
            _ => {},
        }
        None
    }

    /// Take in the result of a scan.
    pub fn ingest(&mut self, scan: NetworkScan)
        requires
            old(self)@.valid(),
            old(self)@.scan_count < u32::MAX,
        ensures
            final(self)@ == (AppView {
                current: Some(scan@),
                history: final(self)@.history,
                status: scan_status((old(self)@.scan_count + 1) as u32, scan@),
                scan_count: (old(self)@.scan_count + 1) as u32,
                ..old(self)@
            }),
            ordered(final(self)@.history),
            history_map(final(self)@.history) == after_links(
                history_map(old(self)@.history),
                scan@.links,
            ),
            final(self)@.valid(),
    {
        self.scan_count = self.scan_count + 1;
        let mut status = String::from_str("#");
        append_decimal(&mut status, self.scan_count as u64);
        status.append(" — ");
        append_counted(&mut status, scan.devices.len(), " device");
        status.append(", ");
        append_counted(&mut status, scan.links.len(), " link");
        status.append("  (");
        status.append(scan.timestamp.time_of_day().as_str());
        status.append(")");
        assert(status@ == scan_status(self.scan_count, scan@));
        self.status = status;
        let ghost start = history_map(self.history@);
        let ghost all = scan@.links;
        let ghost this = self@;
        let mut i: usize = 0;
        assert(all.take(0).len() == 0);
        while i < scan.links.len()
            invariant
                i <= scan.links.len(),
                all == link_views(scan.links@),
                history_map(self.history@) == after_links(start, all.take(i as int)),
                self@ == (AppView { history: self.history@, ..this }),
                this.valid(),
                self.history@.len() >= this.history.len(),
            decreases scan.links.len() - i,
        {
            let link = &scan.links[i];
            assert(all.take(i + 1).drop_last() == all.take(i as int));
            assert(all.take(i + 1).last() == link@);
            self.history.record(
                link.from.short().as_str(),
                link.to.short().as_str(),
                link.tx_mbps,
                link.tx_signal.as_str(),
            );
            i += 1;
        }
        assert(all.take(i as int) == all);
        let _ = self.history.len();
        self.current = Some(scan);
    }
}

// -- Laws ----------------------------------------------------------------------------------------

/// The speeds of one link, in the order in which they were measured.
pub open spec fn speeds_of(links: Seq<LinkView>, key: (Seq<char>, Seq<char>)) -> Seq<u64>
    decreases links.len(),
{
    if links.len() == 0 {
        Seq::empty()
    } else {
        let before = speeds_of(links.drop_last(), key);
        if (mac_short(links.last().from), mac_short(links.last().to)) == key {
            before.push(links.last().tx_mbps as u64)
        } else {
            before
        }
    }
}

/// The signal types of one link, in the order in which they were seen.
pub open spec fn signals_of(links: Seq<LinkView>, key: (Seq<char>, Seq<char>)) -> Seq<Seq<char>>
    decreases links.len(),
{
    if links.len() == 0 {
        Seq::empty()
    } else {
        let before = signals_of(links.drop_last(), key);
        if (mac_short(links.last().from), mac_short(links.last().to)) == key {
            before.push(links.last().tx_signal)
        } else {
            before
        }
    }
}

/// The last of the samples, as many as are kept.
pub open spec fn latest<T>(s: Seq<T>) -> Seq<T> {
    if s.len() > MAX_HISTORY {
        s.skip(s.len() - MAX_HISTORY)
    } else {
        s
    }
}

proof fn lemma_latest<T>(s: Seq<T>, x: T)
    ensures
        bounded(latest(s).push(x)) == latest(s.push(x)),
{
    assert(bounded(latest(s).push(x)) =~= latest(s.push(x)));
}

/// The history of a link holds its latest samples, oldest first; there is a history
/// exactly of the links that were seen.
pub proof fn law_history_holds_latest(links: Seq<LinkView>, key: (Seq<char>, Seq<char>))
    ensures
        after_links(Map::empty(), links).dom().contains(key) <==> speeds_of(links, key).len() > 0,
        after_links(Map::empty(), links).dom().contains(key) ==> after_links(
            Map::empty(),
            links,
        )[key] == (Samples {
            speeds: latest(speeds_of(links, key)),
            signals: latest(signals_of(links, key)),
        }),
        speeds_of(links, key).len() == signals_of(links, key).len(),
    decreases links.len(),
{
    if links.len() > 0 {
        let init = links.drop_last();
        let l = links.last();
        law_history_holds_latest(init, key);
        if (mac_short(l.from), mac_short(l.to)) == key {
            lemma_latest(speeds_of(init, key), l.tx_mbps as u64);
            lemma_latest(signals_of(init, key), l.tx_signal);
            if speeds_of(init, key).len() == 0 {
                assert(speeds_of(init, key) == Seq::<u64>::empty());
                assert(signals_of(init, key) == Seq::<Seq<char>>::empty());
            }
        }
    }
}

/// Scans add up: taking in the links of one scan and then those of another is taking
/// in all of them.
pub proof fn law_scans_add_up(
    map: Map<(Seq<char>, Seq<char>), Samples>,
    first: Seq<LinkView>,
    second: Seq<LinkView>,
)
    ensures
        after_links(after_links(map, first), second) == after_links(map, first + second),
    decreases second.len(),
{
    if second.len() == 0 {
        assert(first + second == first);
    } else {
        law_scans_add_up(map, first, second.drop_last());
        assert((first + second).drop_last() == first + second.drop_last());
        assert((first + second).last() == second.last());
    }
}

/// The monitor after the key was pressed `n` times.
pub open spec fn after_presses(app: AppView, key: Key, n: nat) -> AppView
    decreases n,
{
    if n == 0 {
        app
    } else {
        after_presses(app, key, (n - 1) as nat).after_key(key)
    }
}

/// Tab goes through the links in order and around: after `n` presses the link `n`
/// further on is selected. After as many presses as there are links, it is the first
/// one again.
pub proof fn law_tab_cycles(app: AppView, n: nat)
    requires
        app.valid(),
        0 < app.history.len() <= usize::MAX,
    ensures
        after_presses(app, Key::Tab, n) == (AppView {
            selected_link: ((app.selected_link + n) % (app.history.len() as int)) as usize,
            ..app
        }),
        after_presses(app, Key::Tab, app.history.len()) == app,
{
    lemma_tab(app, n);
    lemma_tab(app, app.history.len());
    let len = app.history.len() as int;
    vstd::arithmetic::div_mod::lemma_mod_add_multiples_vanish(app.selected_link as int, len);
    vstd::arithmetic::div_mod::lemma_small_mod(app.selected_link as nat, app.history.len());
}

proof fn lemma_tab(app: AppView, n: nat)
    requires
        app.valid(),
        0 < app.history.len() <= usize::MAX,
    ensures
        after_presses(app, Key::Tab, n) == (AppView {
            selected_link: ((app.selected_link + n) % (app.history.len() as int)) as usize,
            ..app
        }),
    decreases n,
{
    let len = app.history.len() as int;
    let s = app.selected_link as int;
    if n == 0 {
        vstd::arithmetic::div_mod::lemma_small_mod(app.selected_link as nat, app.history.len());
    } else {
        lemma_tab(app, (n - 1) as nat);
        let before = s + n - 1;
        vstd::arithmetic::div_mod::lemma_mod_pos_bound(before, len);
        vstd::arithmetic::div_mod::lemma_mod_pos_bound(before + 1, len);
        vstd::arithmetic::div_mod::lemma_add_mod_noop(before, 1, len);
        vstd::arithmetic::div_mod::lemma_add_mod_noop(before % len, 1, len);
        vstd::arithmetic::div_mod::lemma_mod_twice(before, len);
        assert((before % len + 1) % len == (before + 1) % len);
    }
}

/// The keys mean what the help says: each has its twin, the diagnostics come back,
/// and a rescan is asked for only where somebody listens.
pub proof fn law_keys(app: AppView)
    ensures
        app.after_key(Key::Esc) == app.after_key(Key::Char('q')),
        app.after_key(Key::Tab) == app.after_key(Key::Char('n')),
        app.after_key(Key::Char('d')).after_key(Key::Char('d')) == app,
        !app.attached ==> app.after_key(Key::Char('r')) == app,
        app.after_key(Key::Other) == app,
        app.after_key(Key::Esc).quit,
{
}

/// Whatever is pressed and whatever is seen, the selected link is one of those that
/// were seen.
pub proof fn law_selection_stays_valid(app: AppView, key: Key)
    requires
        app.valid(),
        app.history.len() <= usize::MAX,
    ensures
        app.after_key(key).valid(),
{
    if app.history.len() > 0 {
        vstd::arithmetic::div_mod::lemma_mod_pos_bound(
            app.selected_link + 1,
            app.history.len() as int,
        );
    }
}

/// What a key does, and what it leaves alone: only q and Esc end the monitor, only d
/// shows or hides the diagnostics, only Tab and n move the selection, and only r, where
/// somebody listens, changes the status. No key touches what was seen.
pub proof fn law_what_keys_change(app: AppView, key: Key)
    ensures
        app.after_key(key).quit <==> app.quit || key is Esc || key == Key::Char('q'),
        app.after_key(key).show_diag != app.show_diag <==> key == Key::Char('d'),
        app.after_key(key).selected_link != app.selected_link ==> key is Tab || key == Key::Char(
            'n',
        ),
        app.after_key(key).status == if key == Key::Char('r') && app.attached {
            "Rescanning..."@
        } else {
            app.status
        },
        app.after_key(key).current == app.current,
        app.after_key(key).history == app.history,
        app.after_key(key).attached == app.attached,
        app.after_key(key).scan_count == app.scan_count,
{
}

/// The status tells the number of the scan, how many devices and links it found, each
/// in the singular where it is one, and its time of day.
pub proof fn law_status(n: u32, scan: ScanView)
    ensures
        scan_status(n, scan) == "#"@ + decimal(n as nat) + " — "@ + (decimal(scan.devices.len())
            + " device"@ + (if scan.devices.len() == 1 {
            Seq::empty()
        } else {
            "s"@
        })) + ", "@ + (decimal(scan.links.len()) + " link"@ + (if scan.links.len() == 1 {
            Seq::empty()
        } else {
            "s"@
        })) + "  ("@ + clock_text(
            (scan.timestamp.secs + scan.timestamp.offset) % 86_400,
            scan.timestamp.nanos / 1_000_000_000,
        ) + ")"@,
{
}

/// The last of the samples are kept, at most 120 of them.
pub proof fn law_latest<T>(s: Seq<T>, k: int)
    requires
        0 <= k < latest(s).len(),
    ensures
        latest(s).len() == if s.len() < 120 {
            s.len()
        } else {
            120
        },
        latest(s)[latest(s).len() - 1 - k] == s[s.len() - 1 - k],
{
}

/// The samples of a link are the TX rates and signals of its links, in the order in
/// which they were seen; those of other links are not among them.
pub proof fn law_samples_of_a_link(links: Seq<LinkView>, link: LinkView, from: MacAddr, to: MacAddr)
    ensures
        ({
            let key = (mac_short(from), mac_short(to));
            let same = link.from.0@.skip(3) == from.0@.skip(3) && link.to.0@.skip(3)
                == to.0@.skip(3);
            &&& same ==> speeds_of(links.push(link), key) == speeds_of(links, key).push(
                link.tx_mbps as u64,
            )
            &&& same ==> signals_of(links.push(link), key) == signals_of(links, key).push(
                link.tx_signal,
            )
            &&& !same ==> speeds_of(links.push(link), key) == speeds_of(links, key)
            &&& !same ==> signals_of(links.push(link), key) == signals_of(links, key)
        }),
{
    assert(links.push(link).drop_last() == links);
    law_short_forms(link.from, from);
    law_short_forms(link.to, to);
}

}
