//! Discovery: the model of a resolved service advertisement and the
//! collector that consumes a bounded stream of discovery events,
//! deduplicates them by service identity, and yields the discovered entries
//! in first-sight order.

use vstd::prelude::*;

use crate::text::{
    append_str, chars_string, dec_rep, push_dec, str_chars, trim_end, trim_end_chars,
};

verus! {

/// The full advertised service name of an entry ends in this suffix; the
/// instance name is what precedes it.
pub open spec fn spec_service_suffix() -> Seq<char> {
    "._cobbler._tcp.local."@
}

/// The service name browsed for on the local network.
pub fn service_name() -> (s: String)
    ensures
        s@ == "_cobbler._tcp.local."@,
{
    String::from_str("_cobbler._tcp.local.")
}

/// One resolved service advertisement, as plain values: the full service
/// name (the dedup identity), the advertised hostname and port, the `id`
/// property if present, and the addresses, IPv4 before IPv6.
pub struct ServiceEntry {
    pub fullname: String,
    pub hostname: String,
    pub port: u16,
    pub id: Option<String>,
    pub ipv4: Vec<String>,
    pub ipv6: Vec<String>,
}

/// Abstract value of a `ServiceEntry`.
pub ghost struct EntryView {
    pub fullname: Seq<char>,
    pub hostname: Seq<char>,
    pub port: u16,
    pub id: Option<Seq<char>>,
    pub ipv4: Seq<Seq<char>>,
    pub ipv6: Seq<Seq<char>>,
}

impl View for ServiceEntry {
    type V = EntryView;

    open spec fn view(&self) -> EntryView {
        EntryView {
            fullname: self.fullname@,
            hostname: self.hostname@,
            port: self.port,
            id: match self.id {
                Some(s) => Some(s@),
                None => None,
            },
            ipv4: self.ipv4@.map_values(|a: String| a@),
            ipv6: self.ipv6@.map_values(|a: String| a@),
        }
    }
}

/// The entry's identity property, or the empty string when the
/// advertisement carried none.
pub open spec fn spec_entry_id(e: EntryView) -> Seq<char> {
    match e.id {
        Some(s) => s,
        None => Seq::empty(),
    }
}

/// The advertised hostname with trailing dots removed.
pub open spec fn spec_entry_host(e: EntryView) -> Seq<char> {
    trim_end(e.hostname, '.')
}

/// The entry's addresses — IPv4 first, then IPv6 — joined with commas.
pub open spec fn spec_entry_addresses(e: EntryView) -> Seq<char> {
    join_comma(e.ipv4 + e.ipv6)
}

/// The instance name: the full service name with the service-type/domain
/// suffix stripped, or the full name unchanged if the suffix is absent.
pub open spec fn spec_entry_instance(e: EntryView) -> Seq<char> {
    if spec_service_suffix().is_suffix_of(e.fullname) {
        e.fullname.subrange(0, e.fullname.len() - spec_service_suffix().len())
    } else {
        e.fullname
    }
}

/// The parts joined with a comma between each two.
pub open spec fn join_comma(parts: Seq<Seq<char>>) -> Seq<char>
    decreases parts.len(),
{
    if parts.len() == 0 {
        Seq::empty()
    } else if parts.len() == 1 {
        parts[0]
    } else {
        parts[0] + seq![','] + join_comma(parts.drop_first())
    }
}

/// `join_comma` seen from the back: joining one more part appends a comma
/// and that part.
proof fn lemma_join_comma_snoc(parts: Seq<Seq<char>>)
    requires
        parts.len() >= 2,
    ensures
        join_comma(parts) == join_comma(parts.drop_last()) + seq![','] + parts.last(),
    decreases parts.len(),
{
    if parts.len() == 2 {
        assert(parts.drop_first().len() == 1);
        assert(parts.drop_first()[0] == parts[1]);
        assert(parts.drop_last().len() == 1);
        assert(parts.drop_last()[0] == parts[0]);
        assert(join_comma(parts.drop_last()) == parts[0]);
        assert(join_comma(parts) == parts[0] + seq![','] + parts[1]);
    } else {
        lemma_join_comma_snoc(parts.drop_first());
        assert(parts.drop_first().drop_last() =~= parts.drop_last().drop_first());
        assert(parts.drop_first().last() == parts.last());
        assert(parts.drop_last()[0] == parts[0]);
        assert(join_comma(parts) == parts[0] + seq![','] + join_comma(parts.drop_first()));
        assert(join_comma(parts.drop_last()) == parts[0] + seq![','] + join_comma(
            parts.drop_last().drop_first(),
        ));
        assert(parts[0] + seq![','] + (join_comma(parts.drop_last().drop_first()) + seq![',']
            + parts.last()) =~= (parts[0] + seq![','] + join_comma(
            parts.drop_last().drop_first(),
        )) + seq![','] + parts.last());
    }
}

/// Append the parts to `out`, comma-separated.
fn append_join_comma(out: &mut Vec<char>, parts: &Vec<String>)
    requires
        old(out)@.len() == 0,
    ensures
        final(out)@ == join_comma(parts@.map_values(|a: String| a@)),
{
    let ghost views = parts@.map_values(|a: String| a@);
    let mut i: usize = 0;
    while i < parts.len()
        invariant
            i <= parts@.len(),
            views == parts@.map_values(|a: String| a@),
            out@ == join_comma(views.subrange(0, i as int)),
        decreases parts@.len() - i,
    {
        proof {
            assert(views[i as int] == parts@[i as int]@);
        }
        if i > 0 {
            out.push(',');
        }
        append_str(out, parts[i].as_str());
        proof {
            let prefix = views.subrange(0, i + 1);
            assert(prefix.drop_last() =~= views.subrange(0, i as int));
            assert(prefix.last() == views[i as int]);
            if i == 0 {
                assert(prefix.len() == 1);
                assert(out@ =~= join_comma(prefix));
            } else {
                lemma_join_comma_snoc(prefix);
                assert(out@ =~= join_comma(prefix));
            }
        }
        i = i + 1;
    }
    proof {
        assert(views.subrange(0, views.len() as int) =~= views);
    }
}

impl ServiceEntry {
    /// The identity property for the discovery table, empty when absent.
    pub fn entry_id(&self) -> (r: String)
        ensures
            r@ == spec_entry_id(self@),
    {
        match &self.id {
            Some(s) => s.clone(),
            None => String::new(),
        }
    }

    /// The advertised hostname, without its trailing dot.
    pub fn entry_host(&self) -> (r: String)
        ensures
            r@ == spec_entry_host(self@),
    {
        let chars = str_chars(self.hostname.as_str());
        let trimmed = trim_end_chars(&chars, '.');
        chars_string(&trimmed)
    }

    /// All addresses, IPv4 first and IPv6 after, comma-separated.
    pub fn entry_addresses(&self) -> (r: String)
        ensures
            r@ == spec_entry_addresses(self@),
    {
        let mut all: Vec<String> = Vec::new();
        let mut i: usize = 0;
        while i < self.ipv4.len()
            invariant
                i <= self.ipv4@.len(),
                all@ =~= self.ipv4@.subrange(0, i as int),
            decreases self.ipv4@.len() - i,
        {
            all.push(self.ipv4[i].clone());
            i = i + 1;
            proof {
                assert(all@ =~= self.ipv4@.subrange(0, i as int));
            }
        }
        let mut j: usize = 0;
        while j < self.ipv6.len()
            invariant
                j <= self.ipv6@.len(),
                all@ =~= self.ipv4@ + self.ipv6@.subrange(0, j as int),
            decreases self.ipv6@.len() - j,
        {
            all.push(self.ipv6[j].clone());
            j = j + 1;
            proof {
                assert(all@ =~= self.ipv4@ + self.ipv6@.subrange(0, j as int));
            }
        }
        proof {
            assert(all@ =~= self.ipv4@ + self.ipv6@);
            assert(all@.map_values(|a: String| a@) =~= self.ipv4@.map_values(|a: String| a@)
                + self.ipv6@.map_values(|a: String| a@));
        }
        let mut out: Vec<char> = Vec::new();
        append_join_comma(&mut out, &all);
        chars_string(&out)
    }

    /// The instance name: the full service name with the well-known suffix
    /// stripped.
    pub fn entry_instance(&self) -> (r: String)
        ensures
            r@ == spec_entry_instance(self@),
    {
        let chars = str_chars(self.fullname.as_str());
        let n = chars.len();
        let suffix = "._cobbler._tcp.local.";
        let m = suffix.unicode_len();
        if n >= m && ends_with(&chars, suffix) {
            let prefix = crate::text::prefix_chars(&chars, n - m);
            chars_string(&prefix)
        } else {
            self.fullname.clone()
        }
    }

    /// One row of the discovery table: id, host, addresses, port and
    /// instance name, tab-separated.
    pub fn entry_row(&self) -> (r: String)
        ensures
            r@ == spec_entry_row(self@),
    {
        let mut out: Vec<char> = Vec::new();
        append_str(&mut out, self.entry_id().as_str());
        out.push('\t');
        append_str(&mut out, self.entry_host().as_str());
        out.push('\t');
        append_str(&mut out, self.entry_addresses().as_str());
        out.push('\t');
        push_dec(self.port as u64, &mut out);
        out.push('\t');
        append_str(&mut out, self.entry_instance().as_str());
        proof {
            assert(out@ =~= spec_entry_row(self@));
        }
        chars_string(&out)
    }
}

/// One row of the discovery table.
pub open spec fn spec_entry_row(e: EntryView) -> Seq<char> {
    spec_entry_id(e) + seq!['\t'] + spec_entry_host(e) + seq!['\t'] + spec_entry_addresses(e)
        + seq!['\t'] + dec_rep(e.port as nat) + seq!['\t'] + spec_entry_instance(e)
}

/// The header row of the discovery table.
pub fn discover_header() -> (r: String)
    ensures
        r@ == "ID\tHOST\tADDRESS\tPORT\tINSTANCE"@,
{
    String::from_str("ID\tHOST\tADDRESS\tPORT\tINSTANCE")
}

/// The target strings of an entry: every address — IPv4 first, then IPv6 —
/// paired with the advertised port as `address:port`.
pub open spec fn entry_target_strings(e: EntryView) -> Seq<Seq<char>> {
    (e.ipv4 + e.ipv6).map_values(|a: Seq<char>| a + seq![':'] + dec_rep(e.port as nat))
}

impl ServiceEntry {
    /// The `address:port` target strings of this entry, one per address.
    pub fn entry_targets(&self) -> (r: Vec<String>)
        ensures
            r@.map_values(|s: String| s@) == entry_target_strings(self@),
    {
        let ghost goal = entry_target_strings(self@);
        let mut r: Vec<String> = Vec::new();
        let mut i: usize = 0;
        while i < self.ipv4.len()
            invariant
                i <= self.ipv4@.len(),
                goal == entry_target_strings(self@),
                r@.len() == i,
                forall|k: int| 0 <= k < i ==> #[trigger] r@[k]@ == goal[k],
            decreases self.ipv4@.len() - i,
        {
            let mut t: Vec<char> = Vec::new();
            append_str(&mut t, self.ipv4[i].as_str());
            t.push(':');
            push_dec(self.port as u64, &mut t);
            proof {
                assert((self.ipv4@ + self.ipv6@)[i as int] == self.ipv4@[i as int]);
                assert(t@ =~= goal[i as int]);
            }
            r.push(chars_string(&t));
            i = i + 1;
        }
        let mut j: usize = 0;
        while j < self.ipv6.len()
            invariant
                j <= self.ipv6@.len(),
                goal == entry_target_strings(self@),
                r@.len() == self.ipv4@.len() + j,
                forall|k: int| 0 <= k < r@.len() ==> #[trigger] r@[k]@ == goal[k],
            decreases self.ipv6@.len() - j,
        {
            let mut t: Vec<char> = Vec::new();
            append_str(&mut t, self.ipv6[j].as_str());
            t.push(':');
            push_dec(self.port as u64, &mut t);
            proof {
                assert((self.ipv4@ + self.ipv6@)[self.ipv4@.len() + j] == self.ipv6@[j as int]);
                assert(t@ =~= goal[self.ipv4@.len() + j]);
            }
            r.push(chars_string(&t));
            j = j + 1;
        }
        proof {
            assert forall|k: int| 0 <= k < goal.len() implies r@.map_values(|s: String| s@)[k]
                == goal[k] by {
                assert(r@[k]@ == goal[k]);
            }
            assert(r@.map_values(|s: String| s@) =~= goal);
        }
        r
    }
}

/// One event from the discovery capability: a fully resolved advertisement,
/// a notice that the search stopped, an event of no interest, or the closing
/// of the event channel.
pub enum DiscoveryEvent {
    Resolved(ServiceEntry),
    SearchStopped(String),
    Other,
    Disconnected,
}

/// Abstract value of a `DiscoveryEvent`.
pub ghost enum EventView {
    Resolved(EntryView),
    SearchStopped(Seq<char>),
    Other,
    Disconnected,
}

impl View for DiscoveryEvent {
    type V = EventView;

    open spec fn view(&self) -> EventView {
        match self {
            DiscoveryEvent::Resolved(e) => EventView::Resolved(e@),
            DiscoveryEvent::SearchStopped(s) => EventView::SearchStopped(s@),
            DiscoveryEvent::Other => EventView::Other,
            DiscoveryEvent::Disconnected => EventView::Disconnected,
        }
    }
}

/// A discovery event together with its arrival time, in milliseconds on the
/// caller's clock.
pub struct TimedEvent {
    pub at_ms: u64,
    pub event: DiscoveryEvent,
}

/// Abstract value of a `TimedEvent`.
pub ghost struct TimedView {
    pub at_ms: u64,
    pub event: EventView,
}

impl View for TimedEvent {
    type V = TimedView;

    open spec fn view(&self) -> TimedView {
        TimedView { at_ms: self.at_ms, event: self.event@ }
    }
}

/// Failure of a whole discovery run: the event channel closed before the
/// deadline.
#[derive(Debug)]
pub enum DiscoverError {
    Disconnected,
}

impl DiscoverError {
    /// The user-facing description of the failure.
    pub fn message(&self) -> (r: String)
        ensures
            r@ == "browse: receiver disconnected"@,
    {
        String::from_str("browse: receiver disconnected")
    }
}

/// State of one discovery run: the full service names seen so far and the
/// entries retained, in first-sight order.
pub struct Collector {
    seen: Vec<String>,
    entries: Vec<ServiceEntry>,
}

/// Abstract value of a `Collector`.
pub ghost struct CollectorView {
    pub seen: Seq<Seq<char>>,
    pub entries: Seq<EntryView>,
}

impl View for Collector {
    type V = CollectorView;

    closed spec fn view(&self) -> CollectorView {
        CollectorView {
            seen: self.seen@.map_values(|s: String| s@),
            entries: self.entries@.map_values(|e: ServiceEntry| e@),
        }
    }
}

impl Collector {
    /// A fresh run: nothing seen, nothing retained.
    pub fn new() -> (c: Collector)
        ensures
            c@.seen == Seq::<Seq<char>>::empty(),
            c@.entries == Seq::<EntryView>::empty(),
    {
        let c = Collector { seen: Vec::new(), entries: Vec::new() };
        proof {
            assert(c@.seen =~= Seq::<Seq<char>>::empty());
            assert(c@.entries =~= Seq::<EntryView>::empty());
        }
        c
    }

    /// The entries retained so far, in first-sight order.
    pub fn entries(&self) -> (r: &Vec<ServiceEntry>)
        ensures
            r@.map_values(|e: ServiceEntry| e@) == self@.entries,
    {
        &self.entries
    }

    /// Feed one resolved advertisement to the run. On first sight of its
    /// full service name the entry is retained and `true` comes back; a
    /// repeat of an already-seen identity is dropped silently.
    pub fn observe(&mut self, entry: ServiceEntry) -> (fresh: bool)
        ensures
            fresh == !old(self)@.seen.contains(entry@.fullname),
            fresh ==> final(self)@.seen == old(self)@.seen.push(entry@.fullname)
                && final(self)@.entries == old(self)@.entries.push(entry@),
            !fresh ==> final(self)@ == old(self)@,
    {
        let ghost seen0 = self@.seen;
        let mut i: usize = 0;
        while i < self.seen.len()
            invariant
                i <= self.seen@.len(),
                seen0 == self@.seen,
                seen0 == old(self)@.seen,
                self == old(self),
                forall|j: int| 0 <= j < i ==> #[trigger] seen0[j] != entry@.fullname,
            decreases self.seen@.len() - i,
        {
            proof {
                assert(seen0[i as int] == self.seen@[i as int]@);
            }
            if self.seen[i].eq(&entry.fullname) {
                assert(seen0.contains(entry@.fullname));
                return false;
            }
            i = i + 1;
        }
        assert(!seen0.contains(entry@.fullname));
        let ghost entries0 = self@.entries;
        self.seen.push(entry.fullname.clone());
        self.entries.push(entry);
        proof {
            assert(self@.seen =~= seen0.push(entry@.fullname));
            assert(self@.entries =~= entries0.push(entry@));
        }
        true
    }
}

impl Collector {
    /// Surrender the retained entries, in first-sight order.
    pub fn into_entries(self) -> (r: Vec<ServiceEntry>)
        ensures
            r@.map_values(|e: ServiceEntry| e@) == self@.entries,
    {
        self.entries
    }
}

/// The deadline of a run starting at `start_ms` with timeout `timeout_ms`,
/// saturating at the largest representable time.
pub fn deadline_for(start_ms: u64, timeout_ms: u64) -> (r: u64)
    ensures
        r == if start_ms + timeout_ms <= u64::MAX {
            start_ms + timeout_ms
        } else {
            u64::MAX as int
        },
{
    if start_ms <= u64::MAX - timeout_ms {
        start_ms + timeout_ms
    } else {
        u64::MAX
    }
}

/// The time still left before `deadline`: the wait bound handed to the next
/// receive, so elapsed time is never counted twice.
pub fn remaining_millis(deadline: u64, now: u64) -> (r: u64)
    ensures
        r == if now < deadline {
            deadline - now
        } else {
            0
        },
{
    if now < deadline {
        deadline - now
    } else {
        0
    }
}

/// What one discovery run yields on a given timed event sequence: events are
/// consumed in order while they arrive before the deadline; a resolved
/// advertisement is retained on first sight of its full service name; a
/// closed channel fails the run; everything else is ignored. `seen` and
/// `acc` carry the state accumulated so far.
pub open spec fn spec_collect(
    events: Seq<TimedView>,
    deadline: int,
    seen: Seq<Seq<char>>,
    acc: Seq<EntryView>,
) -> Result<Seq<EntryView>, DiscoverError>
    decreases events.len(),
{
    if events.len() == 0 {
        Ok(acc)
    } else if events[0].at_ms >= deadline {
        Ok(acc)
    } else {
        match events[0].event {
            EventView::Disconnected => Err(DiscoverError::Disconnected),
            EventView::Resolved(e) => if seen.contains(e.fullname) {
                spec_collect(events.drop_first(), deadline, seen, acc)
            } else {
                spec_collect(events.drop_first(), deadline, seen.push(e.fullname), acc.push(e))
            },
            _ => spec_collect(events.drop_first(), deadline, seen, acc),
        }
    }
}

/// Run one discovery collection over a timed event sequence, with timeout
/// `timeout_ms` from `start_ms`: the model of the bounded collection loop.
/// Duplicate identities are dropped silently; running out of events or
/// reaching the deadline ends the run normally; a closed channel fails it.
#[verifier::loop_isolation(false)]
pub fn collect_within(start_ms: u64, timeout_ms: u64, events: Vec<TimedEvent>) -> (r: Result<
    Vec<ServiceEntry>,
    DiscoverError,
>)
    requires
        start_ms + timeout_ms <= u64::MAX,
    ensures
        match r {
            Ok(v) => spec_collect(
                events@.map_values(|t: TimedEvent| t@),
                start_ms + timeout_ms,
                Seq::empty(),
                Seq::empty(),
            ) == Ok::<Seq<EntryView>, DiscoverError>(v@.map_values(|e: ServiceEntry| e@)),
            Err(e) => spec_collect(
                events@.map_values(|t: TimedEvent| t@),
                start_ms + timeout_ms,
                Seq::empty(),
                Seq::empty(),
            ) == Err::<Seq<EntryView>, DiscoverError>(DiscoverError::Disconnected),
        },
{
    let deadline = start_ms + timeout_ms;
    let ghost evs0 = events@.map_values(|t: TimedEvent| t@);
    let mut events = events;
    let mut col = Collector::new();
    while events.len() > 0 && events[0].at_ms < deadline
        invariant
            deadline == start_ms + timeout_ms,
            spec_collect(
                events@.map_values(|t: TimedEvent| t@),
                deadline as int,
                col@.seen,
                col@.entries,
            ) == spec_collect(evs0, deadline as int, Seq::empty(), Seq::empty()),
        decreases events@.len(),
    {
        let ghost cur = events@.map_values(|t: TimedEvent| t@);
        let first = events.remove(0);
        proof {
            assert(cur[0] == first@);
            assert(events@.map_values(|t: TimedEvent| t@) =~= cur.drop_first());
        }
        match first.event {
            DiscoveryEvent::Resolved(e) => {
                col.observe(e);
            },
            DiscoveryEvent::Disconnected => {
                proof {
                    assert(cur[0].at_ms < deadline);
                    assert(cur[0].event == EventView::Disconnected);
                    assert(spec_collect(cur, deadline as int, col@.seen, col@.entries)
                        == Err::<Seq<EntryView>, DiscoverError>(DiscoverError::Disconnected));
                }
                return Err(DiscoverError::Disconnected);
            },
            _ => {},
        }
    }
    Ok(col.into_entries())
}

/// Extend the accumulated target list with each candidate not yet present,
/// in order.
pub open spec fn add_new(acc: Seq<Seq<char>>, ts: Seq<Seq<char>>) -> Seq<Seq<char>>
    decreases ts.len(),
{
    if ts.len() == 0 {
        acc
    } else {
        add_new(
            if acc.contains(ts[0]) {
                acc
            } else {
                acc.push(ts[0])
            },
            ts.drop_first(),
        )
    }
}

/// What one target-discovery run yields. Deduplication is by service
/// identity, as in the entry collector: a resolved advertisement is consumed
/// on first sight of its full service name, and a repeat of a seen identity
/// is dropped whole, so the targets retained for an identity come from its
/// first-seen event alone. Each fresh entry contributes one `address:port`
/// target per address; a target string already in the list is kept once.
pub open spec fn spec_collect_targets(
    events: Seq<TimedView>,
    deadline: int,
    seen: Seq<Seq<char>>,
    acc: Seq<Seq<char>>,
) -> Result<Seq<Seq<char>>, DiscoverError>
    decreases events.len(),
{
    if events.len() == 0 {
        Ok(acc)
    } else if events[0].at_ms >= deadline {
        Ok(acc)
    } else {
        match events[0].event {
            EventView::Disconnected => Err(DiscoverError::Disconnected),
            EventView::Resolved(e) => if seen.contains(e.fullname) {
                spec_collect_targets(events.drop_first(), deadline, seen, acc)
            } else {
                spec_collect_targets(
                    events.drop_first(),
                    deadline,
                    seen.push(e.fullname),
                    add_new(acc, entry_target_strings(e)),
                )
            },
            _ => spec_collect_targets(events.drop_first(), deadline, seen, acc),
        }
    }
}

/// Whether some string in `v` equals `s`.
fn contains_string(v: &Vec<String>, s: &String) -> (b: bool)
    ensures
        b == v@.map_values(|x: String| x@).contains(s@),
{
    let ghost views = v@.map_values(|x: String| x@);
    let mut i: usize = 0;
    while i < v.len()
        invariant
            i <= v@.len(),
            views == v@.map_values(|x: String| x@),
            forall|j: int| 0 <= j < i ==> #[trigger] views[j] != s@,
        decreases v@.len() - i,
    {
        proof {
            assert(views[i as int] == v@[i as int]@);
        }
        if v[i].eq(s) {
            assert(views[i as int] == s@);
            return true;
        }
        i = i + 1;
    }
    false
}

/// Run one target-discovery collection over a timed event sequence: the
/// model of the loop that gathers `address:port` targets for the fan-out
/// path. Repeated resolution events for an already-seen full service name
/// are dropped silently; the targets retained for an identity are those of
/// its first-seen event.
#[verifier::loop_isolation(false)]
pub fn collect_targets_within(start_ms: u64, timeout_ms: u64, events: Vec<TimedEvent>) -> (r:
    Result<Vec<String>, DiscoverError>)
    requires
        start_ms + timeout_ms <= u64::MAX,
    ensures
        match r {
            Ok(v) => spec_collect_targets(
                events@.map_values(|t: TimedEvent| t@),
                start_ms + timeout_ms,
                Seq::empty(),
                Seq::empty(),
            ) == Ok::<Seq<Seq<char>>, DiscoverError>(v@.map_values(|s: String| s@)),
            Err(e) => spec_collect_targets(
                events@.map_values(|t: TimedEvent| t@),
                start_ms + timeout_ms,
                Seq::empty(),
                Seq::empty(),
            ) == Err::<Seq<Seq<char>>, DiscoverError>(DiscoverError::Disconnected),
        },
{
    let deadline = start_ms + timeout_ms;
    let ghost evs0 = events@.map_values(|t: TimedEvent| t@);
    let mut events = events;
    let mut seen: Vec<String> = Vec::new();
    let mut acc: Vec<String> = Vec::new();
    proof {
        assert(seen@.map_values(|s: String| s@) =~= Seq::<Seq<char>>::empty());
        assert(acc@.map_values(|s: String| s@) =~= Seq::<Seq<char>>::empty());
    }
    while events.len() > 0 && events[0].at_ms < deadline
        invariant
            deadline == start_ms + timeout_ms,
            spec_collect_targets(
                events@.map_values(|t: TimedEvent| t@),
                deadline as int,
                seen@.map_values(|s: String| s@),
                acc@.map_values(|s: String| s@),
            ) == spec_collect_targets(evs0, deadline as int, Seq::empty(), Seq::empty()),
        decreases events@.len(),
    {
        let ghost cur = events@.map_values(|t: TimedEvent| t@);
        let first = events.remove(0);
        proof {
            assert(cur[0] == first@);
            assert(events@.map_values(|t: TimedEvent| t@) =~= cur.drop_first());
        }
        match first.event {
            DiscoveryEvent::Resolved(e) => {
                if !contains_string(&seen, &e.fullname) {
                    let ghost seen_before = seen@.map_values(|s: String| s@);
                    seen.push(e.fullname.clone());
                    proof {
                        assert(seen@.map_values(|s: String| s@) =~= seen_before.push(
                            e@.fullname,
                        ));
                    }
                    let ts = e.entry_targets();
                    let ghost tviews = ts@.map_values(|s: String| s@);
                    let ghost acc_start = acc@.map_values(|s: String| s@);
                    proof {
                        assert(tviews.subrange(0, tviews.len() as int) =~= tviews);
                    }
                    let mut k: usize = 0;
                    while k < ts.len()
                        invariant
                            k <= ts@.len(),
                            tviews == ts@.map_values(|s: String| s@),
                            add_new(
                                acc@.map_values(|s: String| s@),
                                tviews.subrange(k as int, tviews.len() as int),
                            ) == add_new(acc_start, tviews),
                        decreases ts@.len() - k,
                    {
                        proof {
                            assert(tviews.subrange(k as int, tviews.len() as int).drop_first()
                                =~= tviews.subrange(k + 1, tviews.len() as int));
                            assert(tviews.subrange(k as int, tviews.len() as int)[0] == tviews[
                                k as int
                            ]);
                            assert(tviews[k as int] == ts@[k as int]@);
                        }
                        if !contains_string(&acc, &ts[k]) {
                            let ghost before = acc@.map_values(|s: String| s@);
                            acc.push(ts[k].clone());
                            proof {
                                assert(acc@.map_values(|s: String| s@) =~= before.push(
                                    tviews[k as int],
                                ));
                            }
                        }
                        k = k + 1;
                    }
                    proof {
                        assert(tviews.subrange(tviews.len() as int, tviews.len() as int) =~= Seq::<
                            Seq<char>,
                        >::empty());
                    }
                }
            },
            DiscoveryEvent::Disconnected => {
                proof {
                    assert(cur[0].at_ms < deadline);
                    assert(cur[0].event == EventView::Disconnected);
                    assert(spec_collect_targets(
                        cur,
                        deadline as int,
                        seen@.map_values(|s: String| s@),
                        acc@.map_values(|s: String| s@),
                    ) == Err::<Seq<Seq<char>>, DiscoverError>(DiscoverError::Disconnected));
                }
                return Err(DiscoverError::Disconnected);
            },
            _ => {},
        }
    }
    Ok(acc)
}

/// First index in `events` of a resolved event whose entry carries the full
/// service name `f`; `events.len()` if there is none.
pub open spec fn first_resolved_index(events: Seq<TimedView>, f: Seq<char>) -> int
    decreases events.len(),
{
    if events.len() == 0 {
        0
    } else if events[0].event matches EventView::Resolved(e) && e.fullname == f {
        0
    } else {
        1 + first_resolved_index(events.drop_first(), f)
    }
}

/// How many events a collection run consumes: the longest prefix of events
/// arriving strictly before the deadline.
pub open spec fn consumed_len(events: Seq<TimedView>, deadline: int) -> int
    decreases events.len(),
{
    if events.len() == 0 {
        0
    } else if events[0].at_ms >= deadline {
        0
    } else {
        1 + consumed_len(events.drop_first(), deadline)
    }
}

/// The entry `e` stems from the first resolved event carrying its identity,
/// and that event arrives before the deadline.
pub open spec fn retained_is_first(events: Seq<TimedView>, deadline: int, e: EntryView) -> bool {
    let k = first_resolved_index(events, e.fullname);
    0 <= k < consumed_len(events, deadline) && k < events.len() && events[k].event
        == EventView::Resolved(e)
}

/// A run never consumes more events than exist.
proof fn lemma_consumed_le_len(events: Seq<TimedView>, deadline: int)
    ensures
        0 <= consumed_len(events, deadline) <= events.len(),
    decreases events.len(),
{
    if events.len() > 0 && events[0].at_ms < deadline {
        lemma_consumed_le_len(events.drop_first(), deadline);
    }
}

/// A pushed element is in a sequence exactly when it equals the new element
/// or was there before.
proof fn lemma_push_contains<A>(s: Seq<A>, x: A, y: A)
    ensures
        s.push(x).contains(y) <==> s.contains(y) || x == y,
{
    if s.push(x).contains(y) {
        let i = choose|i: int| 0 <= i < s.push(x).len() && s.push(x)[i] == y;
        if i < s.len() {
            assert(s[i] == y);
        }
    }
    if s.contains(y) {
        let i = choose|i: int| 0 <= i < s.len() && s[i] == y;
        assert(s.push(x)[i] == y);
    }
    if x == y {
        assert(s.push(x)[s.len() as int] == y);
    }
}

/// Induction workhorse behind the dedup law, generalized over the state
/// accumulated so far.
proof fn lemma_collect_props(
    events: Seq<TimedView>,
    deadline: int,
    seen: Seq<Seq<char>>,
    acc: Seq<EntryView>,
    out: Seq<EntryView>,
)
    requires
        spec_collect(events, deadline, seen, acc) == Ok::<Seq<EntryView>, DiscoverError>(out),
    ensures
        out.len() >= acc.len() && out.subrange(0, acc.len() as int) == acc,
        forall|i: int| acc.len() <= i < out.len() ==> !seen.contains(#[trigger] out[i].fullname),
        forall|i: int, j: int|
            acc.len() <= i < j < out.len() ==> (#[trigger] out[i]).fullname != (
            #[trigger] out[j]).fullname,
        forall|i: int|
            acc.len() <= i < out.len() ==> retained_is_first(events, deadline, #[trigger] out[i]),
        forall|k: int|
            0 <= k < consumed_len(events, deadline) ==> ((#[trigger] events[k]).event matches
            EventView::Resolved(e) ==> seen.contains(e.fullname) || exists|i: int|
                acc.len() <= i < out.len() && (#[trigger] out[i]).fullname == e.fullname),
    decreases events.len(),
{
    lemma_consumed_le_len(events, deadline);
    if events.len() == 0 || events[0].at_ms >= deadline {
        assert(out == acc);
        assert(out.subrange(0, acc.len() as int) =~= acc);
    } else {
        let rest = events.drop_first();
        lemma_consumed_le_len(rest, deadline);
        match events[0].event {
            EventView::Resolved(e0) => {
                let f0 = e0.fullname;
                if seen.contains(f0) {
                    lemma_collect_props(rest, deadline, seen, acc, out);
                    assert forall|i: int|
                        acc.len() <= i < out.len() implies retained_is_first(
                        events,
                        deadline,
                        #[trigger] out[i],
                    ) by {
                        assert(out[i].fullname != f0);
                        let k = first_resolved_index(rest, out[i].fullname);
                        assert(first_resolved_index(events, out[i].fullname) == 1 + k);
                        assert(events[1 + k] == rest[k]);
                        assert(consumed_len(events, deadline) == 1 + consumed_len(
                            rest,
                            deadline,
                        ));
                    }
                    assert forall|k: int|
                        0 <= k < consumed_len(events, deadline) implies ((
                    #[trigger] events[k]).event matches EventView::Resolved(e)
                        ==> seen.contains(e.fullname) || exists|i: int|
                        acc.len() <= i < out.len() && (#[trigger] out[i]).fullname
                            == e.fullname) by {
                        if k > 0 {
                            assert(events[k] == rest[k - 1]);
                        }
                    }
                } else {
                    let seen1 = seen.push(f0);
                    let acc1 = acc.push(e0);
                    lemma_collect_props(rest, deadline, seen1, acc1, out);
                    assert(out.subrange(0, acc1.len() as int) == acc1);
                    assert(out[acc.len() as int] == acc1[acc.len() as int]);
                    assert(out[acc.len() as int] == e0);
                    assert(acc.push(e0).subrange(0, acc.len() as int) =~= acc);
                    assert(out.subrange(0, acc.len() as int) =~= out.subrange(
                        0,
                        acc1.len() as int,
                    ).subrange(0, acc.len() as int));
                    assert forall|i: int|
                        acc.len() <= i < out.len() implies !seen.contains(
                        #[trigger] out[i].fullname,
                    ) by {
                        if i == acc.len() {
                            assert(out[i].fullname == f0);
                        } else {
                            lemma_push_contains(seen, f0, out[i].fullname);
                        }
                    }
                    assert forall|i: int, j: int|
                        acc.len() <= i < j < out.len() implies (#[trigger] out[i]).fullname != (
                    #[trigger] out[j]).fullname by {
                        if i == acc.len() {
                            lemma_push_contains(seen, f0, out[j].fullname);
                            assert(!seen1.contains(out[j].fullname));
                            assert(out[i].fullname == f0);
                        }
                    }
                    assert forall|i: int|
                        acc.len() <= i < out.len() implies retained_is_first(
                        events,
                        deadline,
                        #[trigger] out[i],
                    ) by {
                        assert(consumed_len(events, deadline) == 1 + consumed_len(
                            rest,
                            deadline,
                        ));
                        if i == acc.len() {
                            assert(out[i] == e0);
                            assert(first_resolved_index(events, f0) == 0);
                        } else {
                            lemma_push_contains(seen, f0, out[i].fullname);
                            assert(out[i].fullname != f0);
                            let k = first_resolved_index(rest, out[i].fullname);
                            assert(first_resolved_index(events, out[i].fullname) == 1 + k);
                            assert(events[1 + k] == rest[k]);
                        }
                    }
                    assert forall|k: int|
                        0 <= k < consumed_len(events, deadline) implies ((
                    #[trigger] events[k]).event matches EventView::Resolved(e)
                        ==> seen.contains(e.fullname) || exists|i: int|
                        acc.len() <= i < out.len() && (#[trigger] out[i]).fullname
                            == e.fullname) by {
                        match events[k].event {
                            EventView::Resolved(er) => {
                                if k == 0 {
                                    assert(out[acc.len() as int].fullname == er.fullname);
                                } else {
                                    assert(events[k] == rest[k - 1]);
                                    if seen1.contains(er.fullname) {
                                        lemma_push_contains(seen, f0, er.fullname);
                                        if !seen.contains(er.fullname) {
                                            assert(er.fullname == f0);
                                            assert(out[acc.len() as int].fullname == er.fullname);
                                        }
                                    }
                                }
                            },
                            _ => {},
                        }
                    }
                }
            },
            EventView::Disconnected => {
                assert(false);
            },
            _ => {
                lemma_collect_props(rest, deadline, seen, acc, out);
                assert forall|i: int|
                    acc.len() <= i < out.len() implies retained_is_first(
                    events,
                    deadline,
                    #[trigger] out[i],
                ) by {
                    let k = first_resolved_index(rest, out[i].fullname);
                    assert(first_resolved_index(events, out[i].fullname) == 1 + k);
                    assert(events[1 + k] == rest[k]);
                    assert(consumed_len(events, deadline) == 1 + consumed_len(rest, deadline));
                }
                assert forall|k: int|
                    0 <= k < consumed_len(events, deadline) implies ((
                #[trigger] events[k]).event matches EventView::Resolved(e) ==> seen.contains(
                    e.fullname,
                ) || exists|i: int|
                    acc.len() <= i < out.len() && (#[trigger] out[i]).fullname == e.fullname) by {
                    if k > 0 {
                        assert(events[k] == rest[k - 1]);
                    }
                }
            },
        }
    }
}

/// Discovery dedup law: when a collection run succeeds, its output holds
/// each service identity at most once; the entry retained for an identity is
/// the one from the first resolved event carrying it, which arrives before
/// the deadline; and every identity resolved before the deadline is
/// represented in the output.
pub proof fn lemma_collect_dedup(events: Seq<TimedView>, deadline: int, out: Seq<EntryView>)
    requires
        spec_collect(events, deadline, Seq::empty(), Seq::empty()) == Ok::<
            Seq<EntryView>,
            DiscoverError,
        >(out),
    ensures
        forall|i: int, j: int|
            0 <= i < j < out.len() ==> (#[trigger] out[i]).fullname != (
            #[trigger] out[j]).fullname,
        forall|i: int| 0 <= i < out.len() ==> retained_is_first(events, deadline, #[trigger] out[i]),
        forall|k: int|
            0 <= k < consumed_len(events, deadline) ==> ((#[trigger] events[k]).event matches
            EventView::Resolved(e) ==> exists|i: int|
                0 <= i < out.len() && (#[trigger] out[i]).fullname == e.fullname),
{
    lemma_collect_props(events, deadline, Seq::empty(), Seq::empty(), out);
}

/// Timeout law: a collection run consumes exactly the events that arrive
/// strictly before its deadline — never more events than exist — and what it
/// yields is already determined by that consumed prefix; with no events
/// before the deadline (in particular with no events at all) a run yields
/// exactly the state it started with.
pub proof fn lemma_collect_bounded(
    events: Seq<TimedView>,
    deadline: int,
    seen: Seq<Seq<char>>,
    acc: Seq<EntryView>,
)
    ensures
        0 <= consumed_len(events, deadline) <= events.len(),
        forall|k: int|
            0 <= k < consumed_len(events, deadline) ==> (#[trigger] events[k]).at_ms < deadline,
        spec_collect(events, deadline, seen, acc) == spec_collect(
            events.subrange(0, consumed_len(events, deadline)),
            deadline,
            seen,
            acc,
        ),
        consumed_len(events, deadline) == 0 ==> spec_collect(events, deadline, seen, acc) == Ok::<
            Seq<EntryView>,
            DiscoverError,
        >(acc),
    decreases events.len(),
{
    if events.len() == 0 || events[0].at_ms >= deadline {
        assert(events.subrange(0, 0) =~= Seq::<TimedView>::empty());
    } else {
        let rest = events.drop_first();
        let c = consumed_len(events, deadline);
        lemma_collect_bounded(rest, deadline, seen, acc);
        assert forall|k: int| 0 <= k < c implies (#[trigger] events[k]).at_ms < deadline by {
            if k > 0 {
                assert(events[k] == rest[k - 1]);
            }
        }
        let cut = events.subrange(0, c);
        assert(cut[0] == events[0]);
        assert(cut.drop_first() =~= rest.subrange(0, consumed_len(rest, deadline)));
        match events[0].event {
            EventView::Resolved(e0) => {
                if seen.contains(e0.fullname) {
                    lemma_collect_bounded(rest, deadline, seen, acc);
                } else {
                    lemma_collect_bounded(rest, deadline, seen.push(e0.fullname), acc.push(e0));
                }
            },
            _ => {},
        }
    }
}

/// Whether `p` is a suffix of `v`.
fn ends_with(v: &Vec<char>, p: &str) -> (b: bool)
    ensures
        b == p@.is_suffix_of(v@),
{
    let n = v.len();
    let m = p.unicode_len();
    if n < m {
        proof {
            assert(!p@.is_suffix_of(v@));
        }
        return false;
    }
    let mut i: usize = 0;
    while i < m
        invariant
            m == p@.len(),
            m <= n == v@.len(),
            i <= m,
            forall|j: int| 0 <= j < i ==> v@[n - m + j] == #[trigger] p@[j],
        decreases m - i,
    {
        if v[n - m + i] != p.get_char(i) {
            proof {
                assert(v@.subrange(n - m, n as int)[i as int] == v@[n - m + i]);
            }
            return false;
        }
        i = i + 1;
    }
    proof {
        assert(v@.subrange(n - m, n as int) =~= p@);
    }
    true
}

} // verus!
