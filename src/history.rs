//! The listening history: a bounded log of plays, and the "recently played"
//! and "continue listening" views derived from it.
use vstd::prelude::*;
use crate::text::{
    chars_lt, chars_of, lemma_seq_lt_irreflexive, lemma_seq_lt_total, lemma_seq_lt_transitive, lower_of, opt_view, seq_lt, str_eq,
    to_lower, trim_of, trim_text,
};

verus! {

/// Most events the log keeps; older ones are dropped first.
pub const MAX_HISTORY_EVENTS: usize = 5000;

/// Length of the window counted by the weekly ranking, in seconds.
pub const WEEK_SECONDS: i64 = 604800;

/// Where a play was started from: an album, a playlist, or something else.
#[derive(Debug)]
pub struct ListeningSource {
    pub kind: String,
    pub id: Option<String>,
    pub name: Option<String>,
}

/// One entry of the "continue listening" view.
#[derive(Debug)]
pub enum ContinueListeningItem {
    Album { path: String },
    Playlist { playlist_slug: String, playlist_name: String },
}

/// One recorded play.
#[derive(Debug)]
pub struct ListeningEvent {
    pub path: String,
    /// Seconds since the Unix epoch.
    pub played_at: i64,
    pub source: Option<ListeningSource>,
}

/// Canonical source kind for an already trimmed, lower-cased kind.
pub open spec fn canonical_kind_of(k: Seq<char>) -> Seq<char> {
    if k == "album"@ {
        "album"@
    } else if k == "playlist"@ {
        "playlist"@
    } else {
        "other"@
    }
}

/// A trimmed optional text, absent when empty after trimming.
pub open spec fn cleaned(v: Option<Seq<char>>) -> Option<Seq<char>> {
    match v {
        Some(s) => if trim_of(s).len() > 0 { Some(trim_of(s)) } else { None },
        None => None,
    }
}

/// Whether a source normalises to nothing: an unknown kind with neither an
/// id nor a name.
pub open spec fn source_is_empty(s: ListeningSource) -> bool {
    canonical_kind_of(lower_of(trim_of(s.kind@))) == "other"@ && cleaned(opt_view(s.id)) is None
        && cleaned(opt_view(s.name)) is None
}

/// Whether `r` is the normal form of source `s`.
pub open spec fn normalizes_to(s: ListeningSource, r: ListeningSource) -> bool {
    &&& r.kind@ == canonical_kind_of(lower_of(trim_of(s.kind@)))
    &&& opt_view(r.id) == cleaned(opt_view(s.id))
    &&& opt_view(r.name) == cleaned(opt_view(s.name))
}

/// Canonical source kind for an already trimmed, lower-cased kind.
pub fn canonical_kind(folded: &str) -> (r: &'static str)
    ensures
        r@ == canonical_kind_of(folded@),
{
    if str_eq(folded, "album") {
        "album"
    } else if str_eq(folded, "playlist") {
        "playlist"
    } else {
        "other"
    }
}

fn clean_text(v: &Option<String>) -> (r: Option<String>)
    ensures
        opt_view(r) == cleaned(opt_view(*v)),
{
    match v {
        Some(s) => {
            let t = trim_text(s.as_str());
            if t.as_str().unicode_len() > 0 {
                Some(t)
            } else {
                None
            }
        },
        None => None,
    }
}

/// Normalises where a play came from: the kind trimmed, lower-cased and
/// mapped to `album`, `playlist` or `other`; id and name trimmed and dropped
/// when empty. A source of unknown kind with neither id nor name is dropped.
pub fn normalize_source(source: ListeningSource) -> (r: Option<ListeningSource>)
    ensures
        r is None <==> source_is_empty(source),
        r is Some ==> normalizes_to(source, r.unwrap()),
{
    proof {
        reveal_strlit("album");
        reveal_strlit("playlist");
        reveal_strlit("other");
    }
    let trimmed = trim_text(source.kind.as_str());
    let folded = to_lower(trimmed.as_str());
    let kind = canonical_kind(folded.as_str());
    let id = clean_text(&source.id);
    let name = clean_text(&source.name);
    if str_eq(kind, "other") && id.is_none() && name.is_none() {
        return None;
    }
    Some(ListeningSource { kind: String::from_str(kind), id, name })
}

/// The log after appending one event and dropping the oldest beyond the cap.
pub open spec fn capped_push(log: Seq<ListeningEvent>, e: ListeningEvent) -> Seq<ListeningEvent> {
    let full = log.push(e);
    if full.len() > MAX_HISTORY_EVENTS {
        full.subrange(full.len() - MAX_HISTORY_EVENTS, full.len() as int)
    } else {
        full
    }
}

/// Whether `e` is the event recorded for a play of `path` at `played_at`
/// from `source`.
pub open spec fn recorded_event(e: ListeningEvent, path: Seq<char>, played_at: i64, source: Option<ListeningSource>) -> bool {
    &&& e.path@ == trim_of(path)
    &&& e.played_at == played_at
    &&& match source {
        Some(s) => if source_is_empty(s) {
            e.source is None
        } else {
            e.source is Some && normalizes_to(s, e.source.unwrap())
        },
        None => e.source is None,
    }
}

/// Distinct paths of the events from index `k` on, walked from the newest
/// event back to `k`, each listed at its most recent play.
pub open spec fn recent_from(s: Seq<ListeningEvent>, k: int) -> Seq<Seq<char>>
    decreases s.len() - k,
{
    if k < 0 || k >= s.len() {
        Seq::empty()
    } else {
        let acc = recent_from(s, k + 1);
        if acc.contains(s[k].path@) {
            acc
        } else {
            acc.push(s[k].path@)
        }
    }
}

/// The most recently played distinct paths, newest first, at most `limit`.
pub open spec fn recent_paths_of(s: Seq<ListeningEvent>, limit: nat) -> Seq<Seq<char>> {
    let all = recent_from(s, 0);
    if all.len() <= limit {
        all
    } else {
        all.take(limit as int)
    }
}

/// Walking further back only appends to the list.
pub proof fn lemma_recent_from_prefix(s: Seq<ListeningEvent>, j: int, k: int)
    requires
        0 <= j <= k <= s.len(),
    ensures
        recent_from(s, k).len() <= recent_from(s, j).len(),
        recent_from(s, j).take(recent_from(s, k).len() as int) == recent_from(s, k),
    decreases k - j,
{
    if j < k {
        lemma_recent_from_prefix(s, j + 1, k);
        let a = recent_from(s, j + 1);
        let b = recent_from(s, k);
        assert(recent_from(s, j).take(a.len() as int) =~= a);
        assert(recent_from(s, j).take(b.len() as int) =~= a.take(b.len() as int));
    } else {
        assert(recent_from(s, j).take(recent_from(s, j).len() as int) =~= recent_from(s, j));
    }
}

/// The views of a vector of strings.
pub open spec fn views(v: Seq<String>) -> Seq<Seq<char>> {
    v.map_values(|x: String| x@)
}

fn contains_string(v: &Vec<String>, x: &String) -> (r: bool)
    ensures
        r == views(v@).contains(x@),
{
    let mut m: usize = 0;
    while m < v.len()
        invariant
            m <= v@.len(),
            forall|k: int| 0 <= k < m ==> v@[k]@ != x@,
        decreases v@.len() - m,
    {
        if v[m] == *x {
            assert(views(v@)[m as int] == x@);
            return true;
        }
        m = m + 1;
    }
    false
}

/// The abstract form of a "continue listening" entry.
pub enum ItemView {
    Album(Seq<char>),
    Playlist(Seq<char>, Seq<char>),
}

/// The abstract form of a "continue listening" item.
pub open spec fn item_view(i: ContinueListeningItem) -> ItemView {
    match i {
        ContinueListeningItem::Album { path } => ItemView::Album(path@),
        ContinueListeningItem::Playlist { playlist_slug, playlist_name } => ItemView::Playlist(
            playlist_slug@,
            playlist_name@,
        ),
    }
}

/// What an event contributes to the "continue listening" view: a playlist
/// entry keyed by its lower-cased slug (its name defaulting to the slug), or
/// nothing for a playlist source without an id; otherwise an album entry
/// keyed by the track path. The flag tells playlist keys from album keys.
pub open spec fn event_entry(e: ListeningEvent) -> Option<(bool, Seq<char>, ItemView)> {
    match e.source {
        Some(src) => if src.kind@ == "playlist"@ {
            match cleaned(opt_view(src.id)) {
                Some(slug) => Some(
                    (
                        true,
                        lower_of(slug),
                        ItemView::Playlist(
                            slug,
                            match cleaned(opt_view(src.name)) {
                                Some(n) => n,
                                None => slug,
                            },
                        ),
                    ),
                ),
                None => None,
            }
        } else {
            Some((false, e.path@, ItemView::Album(e.path@)))
        },
        None => Some((false, e.path@, ItemView::Album(e.path@))),
    }
}

/// The keys of a list of entries.
pub open spec fn entry_keys(w: Seq<(bool, Seq<char>, ItemView)>) -> Seq<(bool, Seq<char>)> {
    w.map_values(|x: (bool, Seq<char>, ItemView)| (x.0, x.1))
}

/// Entries with distinct keys of the events from index `k` on, walked from
/// the newest event back to `k`.
pub open spec fn continue_from(s: Seq<ListeningEvent>, k: int) -> Seq<(bool, Seq<char>, ItemView)>
    decreases s.len() - k,
{
    if k < 0 || k >= s.len() {
        Seq::empty()
    } else {
        let acc = continue_from(s, k + 1);
        match event_entry(s[k]) {
            Some(en) => if entry_keys(acc).contains((en.0, en.1)) {
                acc
            } else {
                acc.push(en)
            },
            None => acc,
        }
    }
}

/// The "continue listening" view: distinct albums and playlists, most
/// recently played first, at most `limit`.
pub open spec fn continue_items_of(s: Seq<ListeningEvent>, limit: nat) -> Seq<ItemView> {
    let all = continue_from(s, 0);
    let cut = if all.len() <= limit {
        all
    } else {
        all.take(limit as int)
    };
    cut.map_values(|x: (bool, Seq<char>, ItemView)| x.2)
}

/// Walking further back only appends entries.
pub proof fn lemma_continue_from_prefix(s: Seq<ListeningEvent>, j: int, k: int)
    requires
        0 <= j <= k <= s.len(),
    ensures
        continue_from(s, k).len() <= continue_from(s, j).len(),
        continue_from(s, j).take(continue_from(s, k).len() as int) == continue_from(s, k),
    decreases k - j,
{
    if j < k {
        lemma_continue_from_prefix(s, j + 1, k);
        let a = continue_from(s, j + 1);
        let b = continue_from(s, k);
        assert(continue_from(s, j).take(a.len() as int) =~= a);
        assert(continue_from(s, j).take(b.len() as int) =~= a.take(b.len() as int));
    } else {
        assert(continue_from(s, j).take(continue_from(s, j).len() as int) =~= continue_from(s, j));
    }
}

fn entry_for(e: &ListeningEvent) -> (r: Option<(bool, String, ContinueListeningItem)>)
    ensures
        match event_entry(*e) {
            Some(en) => r is Some && (r->0).0 == en.0 && (r->0).1@ == en.1 && item_view((r->0).2) == en.2,
            None => r is None,
        },
{
    if let Some(src) = &e.source {
        if str_eq(src.kind.as_str(), "playlist") {
            return match clean_text(&src.id) {
                Some(slug) => {
                    let key = to_lower(slug.as_str());
                    let name = match clean_text(&src.name) {
                        Some(n) => n,
                        None => slug.clone(),
                    };
                    Some((true, key, ContinueListeningItem::Playlist { playlist_slug: slug, playlist_name: name }))
                },
                None => None,
            };
        }
    }
    Some((false, e.path.clone(), ContinueListeningItem::Album { path: e.path.clone() }))
}

fn contains_key(keys: &Vec<(bool, String)>, flag: bool, key: &String) -> (r: bool)
    ensures
        r == keys@.map_values(|x: (bool, String)| (x.0, x.1@)).contains((flag, key@)),
{
    let ghost kv = keys@.map_values(|x: (bool, String)| (x.0, x.1@));
    let mut m: usize = 0;
    while m < keys.len()
        invariant
            m <= keys@.len(),
            kv == keys@.map_values(|x: (bool, String)| (x.0, x.1@)),
            forall|k: int| 0 <= k < m ==> kv[k] != (flag, key@),
        decreases keys@.len() - m,
    {
        if keys[m].0 == flag && keys[m].1 == *key {
            assert(kv[m as int] == (flag, key@));
            return true;
        }
        m = m + 1;
    }
    false
}

/// Start of the weekly window ending at `now` (saturating at the smallest
/// timestamp).
pub open spec fn window_start(now: i64) -> int {
    if now - WEEK_SECONDS < i64::MIN {
        i64::MIN as int
    } else {
        now - WEEK_SECONDS
    }
}

/// Plays of path `p` at or after `cutoff`.
pub open spec fn play_count(s: Seq<ListeningEvent>, cutoff: int, p: Seq<char>) -> nat
    decreases s.len(),
{
    if s.len() == 0 {
        0
    } else {
        play_count(s.drop_last(), cutoff, p) + if s.last().path@ == p && s.last().played_at >= cutoff {
            1nat
        } else {
            0nat
        }
    }
}

/// Latest play of path `p` at or after `cutoff`, and at least 0.
pub open spec fn last_play(s: Seq<ListeningEvent>, cutoff: int, p: Seq<char>) -> int
    decreases s.len(),
{
    if s.len() == 0 {
        0
    } else {
        let prev = last_play(s.drop_last(), cutoff, p);
        if s.last().path@ == p && s.last().played_at >= cutoff && s.last().played_at > prev {
            s.last().played_at as int
        } else {
            prev
        }
    }
}

/// Weekly ranking order: more plays first, then the more recent last play,
/// then by path.
pub open spec fn plays_before(s: Seq<ListeningEvent>, cutoff: int, a: Seq<char>, b: Seq<char>) -> bool {
    let (ca, cb) = (play_count(s, cutoff, a), play_count(s, cutoff, b));
    let (la, lb) = (last_play(s, cutoff, a), last_play(s, cutoff, b));
    ca > cb || (ca == cb && (la > lb || (la == lb && seq_lt(a, b))))
}

/// Whether `v` lists, best first, the top `limit` paths played in the week
/// before `now`: all of them when there are fewer, each ranked before every
/// played path it leaves out.
pub open spec fn is_weekly_top(s: Seq<ListeningEvent>, now: i64, limit: nat, v: Seq<Seq<char>>) -> bool {
    let c = window_start(now);
    &&& v.len() <= limit
    &&& forall|i: int| 0 <= i < v.len() ==> play_count(s, c, #[trigger] v[i]) > 0
    &&& forall|i: int, j: int| 0 <= i < j < v.len() ==> plays_before(s, c, v[i], v[j])
    &&& v.len() < limit ==> forall|p: Seq<char>| play_count(s, c, p) > 0 ==> v.contains(p)
    &&& forall|p: Seq<char>, i: int|
        0 <= i < v.len() && play_count(s, c, p) > 0 && !v.contains(p) ==> plays_before(s, c, v[i], p)
}

/// A path is played at most once per event.
pub proof fn lemma_play_count_bound(s: Seq<ListeningEvent>, cutoff: int, p: Seq<char>)
    ensures
        play_count(s, cutoff, p) <= s.len(),
    decreases s.len(),
{
    if s.len() > 0 {
        lemma_play_count_bound(s.drop_last(), cutoff, p);
    }
}

/// The latest play is a non-negative timestamp.
pub proof fn lemma_last_play_range(s: Seq<ListeningEvent>, cutoff: int, p: Seq<char>)
    ensures
        0 <= last_play(s, cutoff, p) <= i64::MAX,
    decreases s.len(),
{
    if s.len() > 0 {
        lemma_last_play_range(s.drop_last(), cutoff, p);
    }
}

/// A path never played in the window has latest play 0.
pub proof fn lemma_zero_count_last(s: Seq<ListeningEvent>, cutoff: int, p: Seq<char>)
    requires
        play_count(s, cutoff, p) == 0,
    ensures
        last_play(s, cutoff, p) == 0,
    decreases s.len(),
{
    if s.len() > 0 {
        lemma_zero_count_last(s.drop_last(), cutoff, p);
    }
}

/// Per-path tally of the weekly window.
struct Tally {
    path: String,
    key: Vec<char>,
    count: usize,
    last: i64,
}

spec fn tally_ok(s: Seq<ListeningEvent>, cutoff: int, t: Tally) -> bool {
    &&& t.key@ == t.path@
    &&& t.count as nat == play_count(s, cutoff, t.path@)
    &&& t.last as int == last_play(s, cutoff, t.path@)
    &&& t.count > 0
}

fn tally_before(a: &Tally, b: &Tally) -> (r: bool)
    requires
        a.key@ == a.path@,
        b.key@ == b.path@,
    ensures
        r == (a.count > b.count || (a.count == b.count && (a.last > b.last || (a.last == b.last && seq_lt(
            a.path@,
            b.path@,
        ))))),
{
    if a.count != b.count {
        return a.count > b.count;
    }
    if a.last != b.last {
        return a.last > b.last;
    }
    chars_lt(&a.key, &b.key)
}

/// The weekly ranking order is irreflexive, total on distinct paths and
/// transitive.
pub proof fn lemma_plays_before_order(s: Seq<ListeningEvent>, cutoff: int, a: Seq<char>, b: Seq<char>, c: Seq<char>)
    ensures
        !plays_before(s, cutoff, a, a),
        a != b ==> plays_before(s, cutoff, a, b) || plays_before(s, cutoff, b, a),
        plays_before(s, cutoff, a, b) && plays_before(s, cutoff, b, c) ==> plays_before(s, cutoff, a, c),
{
    lemma_seq_lt_irreflexive(a);
    if a != b {
        lemma_seq_lt_total(a, b);
    }
    if seq_lt(a, b) && seq_lt(b, c) {
        lemma_seq_lt_transitive(a, b, c);
    }
}

/// The listening log.
#[derive(Debug)]
pub struct ListeningHistoryStore {
    events: Vec<ListeningEvent>,
}

impl View for ListeningHistoryStore {
    type V = Seq<ListeningEvent>;

    closed spec fn view(&self) -> Seq<ListeningEvent> {
        self.events@
    }
}

impl ListeningHistoryStore {
    /// An empty log.
    pub fn new() -> (r: Self)
        ensures
            r@.len() == 0,
    {
        ListeningHistoryStore { events: Vec::new() }
    }

    /// A log holding previously stored events, oldest first.
    pub fn from_events(events: Vec<ListeningEvent>) -> (r: Self)
        ensures
            r@ == events@,
    {
        ListeningHistoryStore { events }
    }

    /// The events, oldest first, for storing.
    pub fn events(&self) -> (r: &Vec<ListeningEvent>)
        ensures
            r@ == self@,
    {
        &self.events
    }

    /// Records a play of `path` (trimmed; an empty path records nothing) at
    /// `played_at`, with its source normalised, keeping at most
    /// `MAX_HISTORY_EVENTS` events.
    pub fn record_play(&mut self, path: &str, source: Option<ListeningSource>, played_at: i64)
        ensures
            trim_of(path@).len() == 0 ==> final(self)@ == old(self)@,
            trim_of(path@).len() > 0 ==> {
                let e = final(self)@.last();
                &&& final(self)@.len() > 0
                &&& recorded_event(e, path@, played_at, source)
                &&& final(self)@ == capped_push(old(self)@, e)
            },
    {
        let clean = trim_text(path);
        if clean.as_str().unicode_len() == 0 {
            return;
        }
        let normalized = match source {
            Some(s) => normalize_source(s),
            None => None,
        };
        let e = ListeningEvent { path: clean, played_at, source: normalized };
        let ghost before = self.events@;
        self.events.push(e);
        let ghost pushed = self.events@;
        let n = self.events.len();
        if n > MAX_HISTORY_EVENTS {
            let tail = self.events.split_off(n - MAX_HISTORY_EVENTS);
            self.events = tail;
        }
        proof {
            assert(pushed == before.push(pushed.last()));
        }
    }

    /// The most recently played distinct paths, newest first, at most `limit`.
    pub fn recent_paths(&self, limit: usize) -> (r: Vec<String>)
        ensures
            views(r@) == recent_paths_of(self@, limit as nat),
    {
        let ghost s = self.events@;
        let mut out: Vec<String> = Vec::new();
        if limit == 0 {
            proof {
                assert(views(out@) =~= recent_paths_of(s, 0));
            }
            return out;
        }
        let mut i: usize = self.events.len();
        while i > 0
            invariant_except_break
                views(out@).len() < limit,
            invariant
                s == self.events@,
                i <= s.len(),
                views(out@) == recent_from(s, i as int),
                views(out@).len() <= limit,
            ensures
                views(out@) == recent_from(s, i as int),
                i == 0 || views(out@).len() >= limit,
            decreases i,
        {
            let e = &self.events[i - 1];
            let ghost before = views(out@);
            if !contains_string(&out, &e.path) {
                out.push(e.path.clone());
                assert(views(out@) =~= before.push(e.path@));
            }
            i = i - 1;
            if out.len() >= limit {
                break;
            }
        }
        proof {
            lemma_recent_from_prefix(s, 0, i as int);
            let all = recent_from(s, 0);
            if all.len() <= limit {
                assert(views(out@).len() == all.len());
                assert(all.take(all.len() as int) =~= all);
            } else {
            }
        }
        out
    }

    /// The "continue listening" view: distinct albums (by track path) and
    /// playlists (by lower-cased slug), most recently played first, at most
    /// `limit`.
    pub fn recent_items(&self, limit: usize) -> (r: Vec<ContinueListeningItem>)
        ensures
            r@.map_values(|i: ContinueListeningItem| item_view(i)) == continue_items_of(self@, limit as nat),
    {
        let ghost s = self.events@;
        let mut keys: Vec<(bool, String)> = Vec::new();
        let mut out: Vec<ContinueListeningItem> = Vec::new();
        if limit == 0 {
            proof {
                assert(out@.map_values(|i: ContinueListeningItem| item_view(i)) =~= continue_items_of(s, 0));
            }
            return out;
        }
        let mut i: usize = self.events.len();
        while i > 0
            invariant_except_break
                out@.len() < limit,
            invariant
                s == self.events@,
                i <= s.len(),
                keys@.len() == out@.len(),
                out@.len() <= limit,
                continue_from(s, i as int).len() == out@.len(),
                keys@.map_values(|x: (bool, String)| (x.0, x.1@)) == entry_keys(continue_from(s, i as int)),
                forall|m: int| 0 <= m < out@.len() ==> item_view(#[trigger] out@[m]) == continue_from(s, i as int)[m].2,
            ensures
                continue_from(s, i as int).len() == out@.len(),
                forall|m: int| 0 <= m < out@.len() ==> item_view(#[trigger] out@[m]) == continue_from(s, i as int)[m].2,
                i == 0 || out@.len() >= limit,
            decreases i,
        {
            let ghost w = continue_from(s, i - 1);
            let ghost acc = continue_from(s, i as int);
            match entry_for(&self.events[i - 1]) {
                Some(en) => {
                    let (flag, key, item) = en;
                    if !contains_key(&keys, flag, &key) {
                        let ghost kb = keys@;
                        let ghost kv = key@;
                        let ghost ob = out@;
                        keys.push((flag, key));
                        out.push(item);
                        proof {
                            assert(w == acc.push(event_entry(s[i - 1]).unwrap()));
                            let mk = keys@.map_values(|x: (bool, String)| (x.0, x.1@));
                            let mb = kb.map_values(|x: (bool, String)| (x.0, x.1@));
                            assert(keys@[kb.len() as int].1@ == kv);
                            assert forall|m: int| 0 <= m < mk.len() implies mk[m] == entry_keys(w)[m] by {
                                if m < kb.len() {
                                    assert(keys@[m] == kb[m]);
                                    assert(mb[m] == entry_keys(acc)[m]);
                                }
                            }
                            assert(mk =~= entry_keys(w));
                            assert forall|m: int| 0 <= m < out@.len() implies item_view(#[trigger] out@[m]) == w[m].2 by {
                                if m < ob.len() {
                                    assert(out@[m] == ob[m]);
                                }
                            }
                        }
                    }
                },
                None => {},
            }
            i = i - 1;
            if out.len() >= limit {
                break;
            }
        }
        proof {
            lemma_continue_from_prefix(s, 0, i as int);
            let all = continue_from(s, 0);
            let cut = if all.len() <= limit {
                all
            } else {
                all.take(limit as int)
            };
            assert(cut == continue_from(s, i as int)) by {
                if all.len() <= limit {
                    assert(all.take(all.len() as int) =~= all);
                }
            }
            assert(out@.map_values(|i: ContinueListeningItem| item_view(i)) =~= continue_items_of(s, limit as nat));
        }
        out
    }

    /// The paths played most in the week before `now`, at most `limit`: the
    /// first of them in the order of more plays, then the more recent last
    /// play, then path.
    pub fn most_played_week_paths(&self, now: i64, limit: usize) -> (r: Vec<String>)
        ensures
            is_weekly_top(self@, now, limit as nat, views(r@)),
    {
        let ghost s = self.events@;
        let cutoff: i64 = if now < i64::MIN + WEEK_SECONDS {
            i64::MIN
        } else {
            now - WEEK_SECONDS
        };
        let ghost c = window_start(now);
        assert(cutoff as int == c);
        let mut tallies: Vec<Tally> = Vec::new();
        let mut i: usize = 0;
        while i < self.events.len()
            invariant
                s == self.events@,
                cutoff as int == c,
                i <= s.len(),
                forall|k: int| 0 <= k < tallies@.len() ==> tally_ok(s.take(i as int), c, #[trigger] tallies@[k]),
                forall|a: int, b: int|
                    0 <= a < tallies@.len() && 0 <= b < tallies@.len() && a != b ==> tallies@[a].path@ != tallies@[b].path@,
                forall|p: Seq<char>|
                    play_count(s.take(i as int), c, p) > 0 ==> exists|k: int|
                        0 <= k < tallies@.len() && #[trigger] tallies@[k].path@ == p,
            decreases s.len() - i,
        {
            let e = &self.events[i];
            let ghost pre = s.take(i as int);
            let ghost post = s.take(i + 1);
            proof {
                assert(post.drop_last() =~= pre);
                assert(post.last() == *e);
            }
            if e.played_at >= cutoff {
                let mut j: usize = 0;
                let mut found = false;
                while j < tallies.len()
                    invariant_except_break
                        !found,
                    invariant
                        j <= tallies@.len(),
                        forall|k: int| 0 <= k < j ==> tallies@[k].path@ != e.path@,
                    ensures
                        found ==> j < tallies@.len() && tallies@[j as int].path@ == e.path@,
                        !found ==> forall|k: int| 0 <= k < tallies@.len() ==> tallies@[k].path@ != e.path@,
                    decreases tallies@.len() - j,
                {
                    if tallies[j].path == e.path {
                        found = true;
                        break;
                    }
                    j = j + 1;
                }
                let ghost before = tallies@;
                if found {
                    proof {
                        lemma_play_count_bound(pre, c, e.path@);
                    }
                    let old_count = tallies[j].count;
                    let old_last = tallies[j].last;
                    let new_last = if e.played_at > old_last {
                        e.played_at
                    } else {
                        old_last
                    };
                    let t = Tally { path: e.path.clone(), key: chars_of(e.path.as_str()), count: old_count + 1, last: new_last };
                    tallies.set(j, t);
                    proof {
                        assert forall|k: int| 0 <= k < tallies@.len() implies tally_ok(post, c, #[trigger] tallies@[k]) by {
                            if k != j {
                                assert(tallies@[k] == before[k]);
                            }
                        }
                        assert forall|p: Seq<char>| play_count(post, c, p) > 0 implies exists|k: int|
                            0 <= k < tallies@.len() && #[trigger] tallies@[k].path@ == p by {
                            if p == e.path@ {
                                assert(tallies@[j as int].path@ == p);
                            } else {
                                assert(play_count(pre, c, p) > 0);
                                let k = choose|k: int| 0 <= k < before.len() && #[trigger] before[k].path@ == p;
                                assert(tallies@[k].path@ == p);
                            }
                        }
                    }
                } else {
                    proof {
                        lemma_last_play_range(pre, c, e.path@);
                        assert(play_count(pre, c, e.path@) == 0) by {
                            if play_count(pre, c, e.path@) > 0 {
                                let k = choose|k: int| 0 <= k < before.len() && #[trigger] before[k].path@ == e.path@;
                            }
                        }
                        assert(last_play(pre, c, e.path@) == 0) by {
                            lemma_zero_count_last(pre, c, e.path@);
                        }
                    }
                    let first_last = if e.played_at > 0 {
                        e.played_at
                    } else {
                        0
                    };
                    tallies.push(Tally { path: e.path.clone(), key: chars_of(e.path.as_str()), count: 1, last: first_last });
                    proof {
                        assert forall|k: int| 0 <= k < tallies@.len() implies tally_ok(post, c, #[trigger] tallies@[k]) by {
                            if k < before.len() {
                                assert(tallies@[k] == before[k]);
                            }
                        }
                        assert forall|p: Seq<char>| play_count(post, c, p) > 0 implies exists|k: int|
                            0 <= k < tallies@.len() && #[trigger] tallies@[k].path@ == p by {
                            if p == e.path@ {
                                assert(tallies@[before.len() as int].path@ == p);
                            } else {
                                assert(play_count(pre, c, p) > 0);
                                let k = choose|k: int| 0 <= k < before.len() && #[trigger] before[k].path@ == p;
                                assert(tallies@[k].path@ == p);
                            }
                        }
                    }
                }
            } else {
                proof {
                    assert forall|k: int| 0 <= k < tallies@.len() implies tally_ok(post, c, #[trigger] tallies@[k]) by {}
                    assert forall|p: Seq<char>| play_count(post, c, p) > 0 implies exists|k: int|
                        0 <= k < tallies@.len() && #[trigger] tallies@[k].path@ == p by {
                        assert(play_count(pre, c, p) > 0);
                    }
                }
            }
            i = i + 1;
        }
        proof {
            assert(s.take(s.len() as int) =~= s);
        }
        // Insertion sort of the tallies by the ranking order.
        let mut ranked: Vec<Tally> = Vec::new();
        let ghost mut origin: Seq<int> = Seq::empty();
        let mut m: usize = 0;
        while m < tallies.len()
            invariant
                m <= tallies@.len(),
                origin.len() == ranked@.len(),
                forall|k: int| 0 <= k < tallies@.len() ==> tally_ok(s, c, #[trigger] tallies@[k]),
                forall|a: int, b: int|
                    0 <= a < tallies@.len() && 0 <= b < tallies@.len() && a != b ==> tallies@[a].path@ != tallies@[b].path@,
                forall|k: int| 0 <= k < ranked@.len() ==> tally_ok(s, c, #[trigger] ranked@[k]),
                forall|k: int|
                    0 <= k < ranked@.len() ==> 0 <= #[trigger] origin[k] < m && ranked@[k].path@ == tallies@[origin[k]].path@,
                forall|j: int| 0 <= j < m ==> exists|k: int| 0 <= k < ranked@.len() && ranked@[k].path@ == #[trigger] tallies@[j].path@,
                forall|a: int, b: int| 0 <= a < b < ranked@.len() ==> plays_before(s, c, ranked@[a].path@, ranked@[b].path@),
            decreases tallies@.len() - m,
        {
            let t = &tallies[m];
            let x = Tally { path: t.path.clone(), key: chars_of(t.path.as_str()), count: t.count, last: t.last };
            let mut k: usize = 0;
            while k < ranked.len() && !tally_before(&x, &ranked[k])
                invariant
                    k <= ranked@.len(),
                    tally_ok(s, c, x),
                    forall|q: int| 0 <= q < ranked@.len() ==> tally_ok(s, c, #[trigger] ranked@[q]),
                    forall|q: int| 0 <= q < k ==> !plays_before(s, c, x.path@, #[trigger] ranked@[q].path@),
                decreases ranked@.len() - k,
            {
                k = k + 1;
            }
            let ghost old_r = ranked@;
            proof {
                assert forall|q: int| 0 <= q < k implies plays_before(s, c, old_r[q].path@, x.path@) by {
                    assert(origin[q] != m);
                    lemma_plays_before_order(s, c, x.path@, old_r[q].path@, x.path@);
                }
            }
            ranked.insert(k, x);
            proof {
                origin = origin.insert(k as int, m as int);
                assert forall|a: int, b: int| 0 <= a < b < ranked@.len() implies plays_before(
                    s,
                    c,
                    ranked@[a].path@,
                    ranked@[b].path@,
                ) by {
                    if a == k && b - 1 > k {
                        lemma_plays_before_order(s, c, x.path@, old_r[k as int].path@, old_r[b - 1].path@);
                    }
                }
                assert forall|j: int| 0 <= j < m + 1 implies exists|q: int|
                    0 <= q < ranked@.len() && ranked@[q].path@ == #[trigger] tallies@[j].path@ by {
                    if j == m {
                        assert(ranked@[k as int].path@ == tallies@[j].path@);
                    } else {
                        let q0 = choose|q: int| 0 <= q < old_r.len() && old_r[q].path@ == tallies@[j].path@;
                        if q0 < k {
                            assert(ranked@[q0] == old_r[q0]);
                        } else {
                            assert(ranked@[q0 + 1] == old_r[q0]);
                        }
                    }
                }
            }
            m = m + 1;
        }
        let mut out: Vec<String> = Vec::new();
        let mut n: usize = 0;
        while n < ranked.len() && n < limit
            invariant
                n <= ranked@.len(),
                n <= limit,
                views(out@).len() == n,
                forall|q: int| 0 <= q < n ==> views(out@)[q] == #[trigger] ranked@[q].path@,
            decreases ranked@.len() - n,
        {
            out.push(ranked[n].path.clone());
            n = n + 1;
        }
        proof {
            let v = views(out@);
            assert forall|p: Seq<char>| play_count(s, c, p) > 0 implies exists|q: int|
                0 <= q < ranked@.len() && #[trigger] ranked@[q].path@ == p by {
                let j = choose|j: int| 0 <= j < tallies@.len() && #[trigger] tallies@[j].path@ == p;
                assert(tallies@[j].path@ == p);
            }
            assert forall|i: int| 0 <= i < v.len() implies play_count(s, c, #[trigger] v[i]) > 0 by {
                assert(v[i] == ranked@[i].path@);
            }
            assert forall|i: int, j: int| 0 <= i < j < v.len() implies plays_before(s, c, v[i], v[j]) by {
                assert(v[i] == ranked@[i].path@);
                assert(v[j] == ranked@[j].path@);
            }
            if v.len() < limit {
                assert forall|p: Seq<char>| play_count(s, c, p) > 0 implies v.contains(p) by {
                    let q = choose|q: int| 0 <= q < ranked@.len() && #[trigger] ranked@[q].path@ == p;
                    assert(v[q] == p);
                }
            }
            assert forall|p: Seq<char>, i: int|
                0 <= i < v.len() && play_count(s, c, p) > 0 && !v.contains(p) implies plays_before(s, c, v[i], p) by {
                let q = choose|q: int| 0 <= q < ranked@.len() && #[trigger] ranked@[q].path@ == p;
                if q < v.len() {
                    assert(v[q] == p);
                }
                assert(v[i] == ranked@[i].path@);
            }
        }
        out
    }
}

} // verus!
