//! The in-memory library index: a mapping from file path to track, replaced
//! wholesale on reindex, with lookup, count, ranked search and the cover cache
//! sweep.
use vstd::prelude::*;
use crate::models::Song;
use crate::text::{
    chars_lt, chars_of, contains_chars, contains_seq, lemma_seq_lt_total,
    lemma_seq_lt_transitive, lower_of, seq_lt, to_lower, trim_of, trim_text,
};

verus! {

/// Index of the last track in `s` whose path is `p`, or -1.
pub open spec fn lookup_index(s: Seq<Song>, p: Seq<char>) -> int
    decreases s.len(),
{
    if s.len() == 0 {
        -1
    } else if s.last().path@ == p {
        s.len() - 1
    } else {
        lookup_index(s.drop_last(), p)
    }
}

/// The path-to-track mapping a scan produces: a later track with the same
/// path replaces an earlier one.
pub open spec fn index_of(s: Seq<Song>) -> Map<Seq<char>, Song> {
    Map::new(|p: Seq<char>| lookup_index(s, p) >= 0, |p: Seq<char>| s[lookup_index(s, p)])
}

/// No two tracks of `s` share a path.
pub open spec fn paths_unique(s: Seq<Song>) -> bool {
    forall|i: int, j: int| 0 <= i < s.len() && 0 <= j < s.len() && i != j ==> s[i].path@ != s[j].path@
}

/// Whether track `t` is the entry of index `m` under its own path.
pub open spec fn indexed(m: Map<Seq<char>, Song>, t: Song) -> bool {
    m.contains_key(t.path@) && m[t.path@] == t
}

/// `lookup_index` finds the last track with the path, or none.
pub proof fn lemma_lookup_index(s: Seq<Song>, p: Seq<char>)
    ensures
        -1 <= lookup_index(s, p) < s.len(),
        lookup_index(s, p) >= 0 ==> s[lookup_index(s, p)].path@ == p,
        forall|j: int| lookup_index(s, p) < j < s.len() ==> s[j].path@ != p,
    decreases s.len(),
{
    if s.len() > 0 && s.last().path@ != p {
        lemma_lookup_index(s.drop_last(), p);
        assert forall|j: int| lookup_index(s, p) < j < s.len() implies s[j].path@ != p by {
            if j < s.len() - 1 {
                assert(s.drop_last()[j] == s[j]);
            }
        }
    }
}

/// With unique paths a track is found at its own position.
pub proof fn lemma_lookup_unique(s: Seq<Song>, j: int)
    requires
        paths_unique(s),
        0 <= j < s.len(),
    ensures
        lookup_index(s, s[j].path@) == j,
{
    lemma_lookup_index(s, s[j].path@);
}

/// Appending a track puts it in the index under its path.
pub proof fn lemma_index_of_push(s: Seq<Song>, x: Song)
    ensures
        index_of(s.push(x)) == index_of(s).insert(x.path@, x),
{
    assert(s.push(x).drop_last() =~= s);
    let t = s.push(x);
    let m = index_of(s).insert(x.path@, x);
    assert forall|p: Seq<char>| #[trigger] index_of(t).contains_key(p) <==> m.contains_key(p) by {
        lemma_lookup_index(s, p);
    }
    assert forall|p: Seq<char>| #[trigger] index_of(t).contains_key(p) implies index_of(t)[p] == m[p] by {
        lemma_lookup_index(s, p);
    }
    assert(index_of(t) =~= m);
}

/// Replacing the track stored under a path updates that entry alone.
pub proof fn lemma_index_of_update(s: Seq<Song>, j: int, x: Song)
    requires
        paths_unique(s),
        0 <= j < s.len(),
        s[j].path@ == x.path@,
    ensures
        paths_unique(s.update(j, x)),
        index_of(s.update(j, x)) == index_of(s).insert(x.path@, x),
{
    let t = s.update(j, x);
    assert(paths_unique(t));
    assert forall|p: Seq<char>| #[trigger] lookup_index(t, p) == lookup_index(s, p) by {
        lemma_lookup_index(s, p);
        lemma_lookup_index(t, p);
        if lookup_index(s, p) >= 0 {
            lemma_lookup_unique(t, lookup_index(s, p));
        } else if lookup_index(t, p) >= 0 {
            lemma_lookup_unique(s, lookup_index(t, p));
        }
    }
    lemma_lookup_unique(t, j);
    let m = index_of(s).insert(x.path@, x);
    assert forall|p: Seq<char>| #[trigger] index_of(t).contains_key(p) <==> m.contains_key(p) by {
        lemma_lookup_index(s, p);
    }
    assert forall|p: Seq<char>| #[trigger] index_of(t).contains_key(p) implies index_of(t)[p] == m[p] by {
        lemma_lookup_index(s, p);
        lemma_lookup_index(t, p);
    }
    assert(index_of(t) =~= m);
}

/// With unique paths the index has one entry per track.
pub proof fn lemma_index_len(s: Seq<Song>)
    requires
        paths_unique(s),
    ensures
        index_of(s).dom().finite(),
        index_of(s).len() == s.len(),
        forall|j: int| 0 <= j < s.len() ==> indexed(index_of(s), #[trigger] s[j]),
{
    let ps = s.map_values(|t: Song| t.path@);
    assert forall|p: Seq<char>| index_of(s).dom().contains(p) <==> ps.to_set().contains(p) by {
        lemma_lookup_index(s, p);
        if ps.contains(p) {
            let j = choose|j: int| 0 <= j < ps.len() && ps[j] == p;
            lemma_lookup_unique(s, j);
        }
        if lookup_index(s, p) >= 0 {
            assert(ps[lookup_index(s, p)] == p);
        }
    }
    assert(index_of(s).dom() =~= ps.to_set());
    assert(ps.no_duplicates());
    ps.unique_seq_to_set();
    assert forall|j: int| 0 <= j < s.len() implies indexed(index_of(s), #[trigger] s[j]) by {
        lemma_lookup_unique(s, j);
    }
}

/// Membership in the index of a track list with unique paths is membership
/// in the list.
pub proof fn lemma_indexed_iff_listed(s: Seq<Song>, t: Song)
    requires
        paths_unique(s),
    ensures
        indexed(index_of(s), t) <==> s.contains(t),
{
    lemma_lookup_index(s, t.path@);
    if s.contains(t) {
        let j = choose|j: int| 0 <= j < s.len() && s[j] == t;
        lemma_lookup_unique(s, j);
    }
}

/// Keeps, for each path, the last track scanned under it.
fn dedup_by_path(scanned: &Vec<Song>) -> (r: Vec<Song>)
    ensures
        paths_unique(r@),
        index_of(r@) == index_of(scanned@),
{
    let mut out: Vec<Song> = Vec::new();
    let mut i: usize = 0;
    assert(index_of(out@) =~= index_of(scanned@.take(0)));
    while i < scanned.len()
        invariant
            i <= scanned@.len(),
            paths_unique(out@),
            index_of(out@) == index_of(scanned@.take(i as int)),
        decreases scanned@.len() - i,
    {
        let x = scanned[i].clone();
        proof {
            assert(scanned@.take(i + 1) =~= scanned@.take(i as int).push(x));
            lemma_index_of_push(scanned@.take(i as int), x);
        }
        let mut j: usize = 0;
        let mut found = false;
        while j < out.len()
            invariant_except_break
                !found,
            invariant
                j <= out@.len(),
                forall|k: int| 0 <= k < j ==> out@[k].path@ != x.path@,
            ensures
                found ==> j < out@.len() && out@[j as int].path@ == x.path@,
                !found ==> forall|k: int| 0 <= k < out@.len() ==> out@[k].path@ != x.path@,
            decreases out@.len() - j,
        {
            if out[j].path == x.path {
                found = true;
                break;
            }
            j = j + 1;
        }
        if found {
            proof {
                lemma_index_of_update(out@, j as int, x);
            }
            out.set(j, x);
        } else {
            proof {
                lemma_index_of_push(out@, x);
            }
            out.push(x);
        }
        i = i + 1;
    }
    assert(scanned@.take(scanned@.len() as int) =~= scanned@);
    out
}

/// The query a search matches with: trimmed, then lower-cased.
pub open spec fn normalized_query(q: Seq<char>) -> Seq<char> {
    lower_of(trim_of(q))
}

/// Ranking tier of a track for an already lower-cased query, from its
/// lower-cased title, artist and album: 0 when the title contains the query,
/// 1 when only the artist does, 2 when only the album does, 3 otherwise.
pub open spec fn tier_from(q: Seq<char>, title: Seq<char>, artist: Seq<char>, album: Seq<char>) -> nat {
    if contains_seq(title, q) {
        0
    } else if contains_seq(artist, q) {
        1
    } else if contains_seq(album, q) {
        2
    } else {
        3
    }
}

/// Ranking tier of track `t` for the normalised query `q`.
pub open spec fn tier_of(q: Seq<char>, t: Song) -> nat {
    tier_from(q, lower_of(t.title@), lower_of(t.subtitle@), lower_of(t.album@))
}

/// Whether some field of `t` contains the normalised query, case-insensitively.
pub open spec fn song_matches(q: Seq<char>, t: Song) -> bool {
    tier_of(q, t) < 3
}

/// Order of ranked tracks: by tier, then artist, album, title and finally
/// path, each compared case-sensitively.
pub open spec fn key_before(ta: nat, a: Song, tb: nat, b: Song) -> bool {
    ta < tb || (ta == tb && (seq_lt(a.subtitle@, b.subtitle@) || (a.subtitle@ == b.subtitle@ && (seq_lt(
        a.album@,
        b.album@,
    ) || (a.album@ == b.album@ && (seq_lt(a.title@, b.title@) || (a.title@ == b.title@ && seq_lt(
        a.path@,
        b.path@,
    ))))))))
}

/// Whether `a` is listed before `b` in the results for the normalised query `q`.
pub open spec fn ranks_before(q: Seq<char>, a: Song, b: Song) -> bool {
    key_before(tier_of(q, a), a, tier_of(q, b), b)
}

/// The ranking order is transitive.
pub proof fn lemma_key_before_transitive(ta: nat, a: Song, tb: nat, b: Song, tc: nat, c: Song)
    requires
        key_before(ta, a, tb, b),
        key_before(tb, b, tc, c),
    ensures
        key_before(ta, a, tc, c),
{
    if seq_lt(a.subtitle@, b.subtitle@) && seq_lt(b.subtitle@, c.subtitle@) {
        lemma_seq_lt_transitive(a.subtitle@, b.subtitle@, c.subtitle@);
    }
    if seq_lt(a.album@, b.album@) && seq_lt(b.album@, c.album@) {
        lemma_seq_lt_transitive(a.album@, b.album@, c.album@);
    }
    if seq_lt(a.title@, b.title@) && seq_lt(b.title@, c.title@) {
        lemma_seq_lt_transitive(a.title@, b.title@, c.title@);
    }
    if seq_lt(a.path@, b.path@) && seq_lt(b.path@, c.path@) {
        lemma_seq_lt_transitive(a.path@, b.path@, c.path@);
    }
}

/// Tracks with different paths are ordered one way or the other.
pub proof fn lemma_key_before_total(ta: nat, a: Song, tb: nat, b: Song)
    requires
        a.path@ != b.path@,
    ensures
        key_before(ta, a, tb, b) || key_before(tb, b, ta, a),
{
    if a.subtitle@ != b.subtitle@ {
        lemma_seq_lt_total(a.subtitle@, b.subtitle@);
    }
    if a.album@ != b.album@ {
        lemma_seq_lt_total(a.album@, b.album@);
    }
    if a.title@ != b.title@ {
        lemma_seq_lt_total(a.title@, b.title@);
    }
    lemma_seq_lt_total(a.path@, b.path@);
}

/// Tier of a match for an already lower-cased query and lower-cased fields.
pub fn match_tier(query: &str, title: &str, artist: &str, album: &str) -> (r: u8)
    ensures
        r as nat == tier_from(query@, title@, artist@, album@),
{
    let q = chars_of(query);
    tier_chars(&q, title, artist, album)
}

fn tier_chars(q: &Vec<char>, title: &str, artist: &str, album: &str) -> (r: u8)
    ensures
        r as nat == tier_from(q@, title@, artist@, album@),
{
    if contains_chars(&chars_of(title), q) {
        0
    } else if contains_chars(&chars_of(artist), q) {
        1
    } else if contains_chars(&chars_of(album), q) {
        2
    } else {
        3
    }
}

/// A matching track with its sort key spelled out as characters.
struct Ranked {
    tier: u8,
    artist: Vec<char>,
    album: Vec<char>,
    title: Vec<char>,
    path: Vec<char>,
    song: Song,
}

spec fn ranked_ok(q: Seq<char>, r: Ranked) -> bool {
    &&& r.tier as nat == tier_of(q, r.song)
    &&& r.artist@ == r.song.subtitle@
    &&& r.album@ == r.song.album@
    &&& r.title@ == r.song.title@
    &&& r.path@ == r.song.path@
}

fn ranked_before(a: &Ranked, b: &Ranked) -> (r: bool)
    requires
        a.artist@ == a.song.subtitle@,
        a.album@ == a.song.album@,
        a.title@ == a.song.title@,
        a.path@ == a.song.path@,
        b.artist@ == b.song.subtitle@,
        b.album@ == b.song.album@,
        b.title@ == b.song.title@,
        b.path@ == b.song.path@,
    ensures
        r == key_before(a.tier as nat, a.song, b.tier as nat, b.song),
{
    if a.tier != b.tier {
        return a.tier < b.tier;
    }
    if chars_lt(&a.artist, &b.artist) {
        return true;
    }
    if chars_lt(&b.artist, &a.artist) {
        return false;
    }
    proof {
        if a.artist@ != b.artist@ {
            lemma_seq_lt_total(a.artist@, b.artist@);
        }
    }
    if chars_lt(&a.album, &b.album) {
        return true;
    }
    if chars_lt(&b.album, &a.album) {
        return false;
    }
    proof {
        if a.album@ != b.album@ {
            lemma_seq_lt_total(a.album@, b.album@);
        }
    }
    if chars_lt(&a.title, &b.title) {
        return true;
    }
    if chars_lt(&b.title, &a.title) {
        return false;
    }
    proof {
        if a.title@ != b.title@ {
            lemma_seq_lt_total(a.title@, b.title@);
        }
    }
    chars_lt(&a.path, &b.path)
}

/// Whether some indexed track uses the cache file `f` as its cover.
pub open spec fn cover_referenced(m: Map<Seq<char>, Song>, f: Seq<char>) -> bool {
    exists|p: Seq<char>| m.contains_key(p) && #[trigger] m[p].cover@ == f
}

/// The cache files, in their order, that no indexed track refers to.
pub open spec fn unreferenced(files: Seq<String>, m: Map<Seq<char>, Song>) -> Seq<String>
    decreases files.len(),
{
    if files.len() == 0 {
        Seq::empty()
    } else {
        let rest = unreferenced(files.drop_last(), m);
        if cover_referenced(m, files.last()@) {
            rest
        } else {
            rest.push(files.last())
        }
    }
}

/// After a rescan, the sweep deletes a cache file exactly when it is in the
/// cache and no track of the new index uses it as its cover.
pub proof fn lemma_sweep_removes_exactly_unreferenced(files: Seq<String>, m: Map<Seq<char>, Song>, f: String)
    ensures
        unreferenced(files, m).contains(f) <==> (files.contains(f) && !cover_referenced(m, f@)),
    decreases files.len(),
{
    if files.len() > 0 {
        let init = files.drop_last();
        lemma_unreferenced_members_step(files, m, f);
        lemma_sweep_removes_exactly_unreferenced(init, m, f);
        if init.contains(f) {
            let i = choose|i: int| 0 <= i < init.len() && init[i] == f;
            assert(files[i] == f);
        }
        if files.contains(f) && files.last() != f {
            let i = choose|i: int| 0 <= i < files.len() && files[i] == f;
            assert(init[i] == f);
        }
    }
}

proof fn lemma_unreferenced_members_step(files: Seq<String>, m: Map<Seq<char>, Song>, f: String)
    requires
        files.len() > 0,
    ensures
        unreferenced(files, m).contains(f) <==> (unreferenced(files.drop_last(), m).contains(f) || (files.last() == f
            && !cover_referenced(m, f@))),
{
    let rest = unreferenced(files.drop_last(), m);
    if !cover_referenced(m, files.last()@) {
        let full = rest.push(files.last());
        if rest.contains(f) {
            let i = choose|i: int| 0 <= i < rest.len() && rest[i] == f;
            assert(full[i] == f);
        }
        if files.last() == f {
            assert(full[rest.len() as int] == f);
        }
        if full.contains(f) && files.last() != f {
            let i = choose|i: int| 0 <= i < full.len() && full[i] == f;
            assert(rest[i] == f);
        }
    }
}

/// Rescanning an unchanged directory gives the same index, whatever order the
/// walk lists the files in: two scans holding the same tracks, each path once,
/// index equally.
pub proof fn lemma_reindex_idempotent(s1: Seq<Song>, s2: Seq<Song>)
    requires
        paths_unique(s1),
        paths_unique(s2),
        forall|t: Song| s1.contains(t) <==> s2.contains(t),
    ensures
        index_of(s1) == index_of(s2),
{
    assert forall|p: Seq<char>| #[trigger] index_of(s1).contains_key(p) implies index_of(s2).contains_key(p)
        && index_of(s2)[p] == index_of(s1)[p] by {
        lemma_lookup_index(s1, p);
        let t = s1[lookup_index(s1, p)];
        assert(s1.contains(t));
        lemma_indexed_iff_listed(s2, t);
    }
    assert forall|p: Seq<char>| #[trigger] index_of(s2).contains_key(p) implies index_of(s1).contains_key(p) by {
        lemma_lookup_index(s2, p);
        let t = s2[lookup_index(s2, p)];
        assert(s2.contains(t));
        lemma_indexed_iff_listed(s1, t);
    }
    assert(index_of(s1) =~= index_of(s2));
}

/// A track whose title contains the query ranks before one where only the
/// artist does, which ranks before one where only the album does.
pub proof fn lemma_tier_order(q: Seq<char>, a: Song, b: Song, c: Song)
    requires
        contains_seq(lower_of(a.title@), q),
        !contains_seq(lower_of(b.title@), q),
        contains_seq(lower_of(b.subtitle@), q),
        !contains_seq(lower_of(c.title@), q),
        !contains_seq(lower_of(c.subtitle@), q),
        contains_seq(lower_of(c.album@), q),
    ensures
        ranks_before(q, a, b),
        ranks_before(q, b, c),
        ranks_before(q, a, c),
{
}

/// The library: the current path-to-track index.
#[derive(Debug)]
pub struct MusicLibrary {
    tracks: Vec<Song>,
}

impl View for MusicLibrary {
    type V = Map<Seq<char>, Song>;

    closed spec fn view(&self) -> Map<Seq<char>, Song> {
        index_of(self.tracks@)
    }
}

impl MusicLibrary {
    /// Internal consistency: one stored track per path.
    pub closed spec fn wf(&self) -> bool {
        paths_unique(self.tracks@)
    }

    /// Builds the library from the tracks a scan produced.
    pub fn new(scanned: Vec<Song>) -> (r: Self)
        ensures
            r.wf(),
            r@ == index_of(scanned@),
    {
        MusicLibrary { tracks: dedup_by_path(&scanned) }
    }

    /// Replaces the whole index with the tracks of a fresh scan (nothing of
    /// the old index is kept) and returns the new track count.
    pub fn reindex(&mut self, scanned: Vec<Song>) -> (r: usize)
        ensures
            final(self).wf(),
            final(self)@ == index_of(scanned@),
            r == final(self)@.len(),
    {
        let tracks = dedup_by_path(&scanned);
        proof {
            lemma_index_len(tracks@);
        }
        self.tracks = tracks;
        self.tracks.len()
    }

    /// Number of indexed tracks.
    pub fn get_stats(&self) -> (r: usize)
        requires
            self.wf(),
        ensures
            r == self@.len(),
    {
        proof {
            lemma_index_len(self.tracks@);
        }
        self.tracks.len()
    }

    /// The track indexed under `path`, if any.
    pub fn lookup(&self, path: &str) -> (r: Option<Song>)
        requires
            self.wf(),
        ensures
            r == (if self@.contains_key(path@) { Some(self@[path@]) } else { None::<Song> }),
    {
        let mut j: usize = 0;
        while j < self.tracks.len()
            invariant
                self.wf(),
                j <= self.tracks@.len(),
                forall|k: int| 0 <= k < j ==> self.tracks@[k].path@ != path@,
            decreases self.tracks@.len() - j,
        {
            if crate::text::str_eq(self.tracks[j].path.as_str(), path) {
                proof {
                    lemma_lookup_unique(self.tracks@, j as int);
                }
                return Some(self.tracks[j].clone());
            }
            j = j + 1;
        }
        proof {
            lemma_lookup_index(self.tracks@, path@);
        }
        None
    }

    /// Case-insensitive search of titles, artists and albums for the trimmed,
    /// lower-cased query. An empty query finds nothing. Results hold exactly the
    /// indexed tracks with a matching field, ordered by tier (title match, then
    /// artist only, then album only), then artist, album, title and path.
    pub fn search(&self, query: &str) -> (r: Vec<Song>)
        requires
            self.wf(),
        ensures
            trim_of(query@).len() == 0 ==> r@.len() == 0,
            normalized_query(query@).len() == 0 ==> r@.len() == 0,
            trim_of(query@).len() > 0 && normalized_query(query@).len() > 0 ==> forall|t: Song|
                #[trigger] r@.contains(t) <==> (indexed(self@, t) && song_matches(normalized_query(query@), t)),
            forall|i: int, j: int|
                0 <= i < j < r@.len() ==> ranks_before(normalized_query(query@), r@[i], r@[j]),
    {
        let trimmed = trim_text(query);
        if trimmed.as_str().unicode_len() == 0 {
            return Vec::new();
        }
        let lowered = to_lower(trimmed.as_str());
        let q = chars_of(lowered.as_str());
        let ghost qs = q@;
        if q.len() == 0 {
            return Vec::new();
        }
        let mut ranked: Vec<Ranked> = Vec::new();
        let ghost mut origin: Seq<int> = Seq::empty();
        let mut i: usize = 0;
        while i < self.tracks.len()
            invariant
                self.wf(),
                q@ == qs,
                i <= self.tracks@.len(),
                origin.len() == ranked@.len(),
                forall|m: int| 0 <= m < ranked@.len() ==> ranked_ok(qs, #[trigger] ranked@[m]) && ranked@[m].tier < 3,
                forall|m: int|
                    0 <= m < ranked@.len() ==> 0 <= #[trigger] origin[m] < i && ranked@[m].song == self.tracks@[origin[m]],
                forall|j: int|
                    0 <= j < i && song_matches(qs, #[trigger] self.tracks@[j]) ==> exists|m: int|
                        0 <= m < ranked@.len() && ranked@[m].song == self.tracks@[j],
                forall|a: int, b: int|
                    0 <= a < b < ranked@.len() ==> key_before(
                        ranked@[a].tier as nat,
                        ranked@[a].song,
                        ranked@[b].tier as nat,
                        ranked@[b].song,
                    ),
            decreases self.tracks@.len() - i,
        {
            let t = &self.tracks[i];
            let tier = tier_chars(
                &q,
                to_lower(t.title.as_str()).as_str(),
                to_lower(t.subtitle.as_str()).as_str(),
                to_lower(t.album.as_str()).as_str(),
            );
            if tier < 3 {
                let x = Ranked {
                    tier,
                    artist: chars_of(t.subtitle.as_str()),
                    album: chars_of(t.album.as_str()),
                    title: chars_of(t.title.as_str()),
                    path: chars_of(t.path.as_str()),
                    song: t.clone(),
                };
                let mut k: usize = 0;
                while k < ranked.len() && !ranked_before(&x, &ranked[k])
                    invariant
                        k <= ranked@.len(),
                        ranked_ok(qs, x),
                        forall|m: int| 0 <= m < ranked@.len() ==> ranked_ok(qs, #[trigger] ranked@[m]),
                        forall|m: int|
                            0 <= m < k ==> !key_before(
                                x.tier as nat,
                                x.song,
                                #[trigger] ranked@[m].tier as nat,
                                ranked@[m].song,
                            ),
                    decreases ranked@.len() - k,
                {
                    k = k + 1;
                }
                let ghost old_r = ranked@;
                proof {
                    assert forall|m: int| 0 <= m < k implies key_before(
                        old_r[m].tier as nat,
                        old_r[m].song,
                        x.tier as nat,
                        x.song,
                    ) by {
                        assert(origin[m] != i);
                        lemma_key_before_total(x.tier as nat, x.song, old_r[m].tier as nat, old_r[m].song);
                    }
                }
                ranked.insert(k, x);
                proof {
                    origin = origin.insert(k as int, i as int);
                    assert forall|a: int, b: int| 0 <= a < b < ranked@.len() implies key_before(
                        ranked@[a].tier as nat,
                        ranked@[a].song,
                        ranked@[b].tier as nat,
                        ranked@[b].song,
                    ) by {
                        if a == k && b - 1 > k {
                            lemma_key_before_transitive(
                                x.tier as nat,
                                x.song,
                                old_r[k as int].tier as nat,
                                old_r[k as int].song,
                                old_r[b - 1].tier as nat,
                                old_r[b - 1].song,
                            );
                        }
                    }
                    assert forall|j: int|
                        0 <= j < i + 1 && song_matches(qs, #[trigger] self.tracks@[j]) implies exists|m: int|
                        0 <= m < ranked@.len() && ranked@[m].song == self.tracks@[j] by {
                        if j == i {
                            assert(ranked@[k as int].song == self.tracks@[j]);
                        } else {
                            let m0 = choose|m: int| 0 <= m < old_r.len() && old_r[m].song == self.tracks@[j];
                            if m0 < k {
                                assert(ranked@[m0] == old_r[m0]);
                            } else {
                                assert(ranked@[m0 + 1] == old_r[m0]);
                            }
                        }
                    }
                }
            }
            i = i + 1;
        }
        let mut out: Vec<Song> = Vec::new();
        let mut m: usize = 0;
        while m < ranked.len()
            invariant
                m <= ranked@.len(),
                out@.len() == m,
                forall|k: int| 0 <= k < m ==> out@[k] == ranked@[k].song,
            decreases ranked@.len() - m,
        {
            out.push(ranked[m].song.clone());
            m = m + 1;
        }
        proof {
            assert forall|t: Song| #[trigger] out@.contains(t) <==> (indexed(self@, t) && song_matches(qs, t)) by {
                lemma_indexed_iff_listed(self.tracks@, t);
                if out@.contains(t) {
                    let k = choose|k: int| 0 <= k < out@.len() && out@[k] == t;
                    assert(self.tracks@[origin[k]] == t);
                }
                if indexed(self@, t) && song_matches(qs, t) {
                    let j = choose|j: int| 0 <= j < self.tracks@.len() && self.tracks@[j] == t;
                    let k = choose|k: int| 0 <= k < ranked@.len() && ranked@[k].song == self.tracks@[j];
                    assert(out@[k] == t);
                }
            }
        }
        out
    }

    /// The cover cache files, of those listed, that no indexed track refers to
    /// (in the order listed): what the sweep after a rescan deletes.
    pub fn orphaned_covers(&self, cache_files: &Vec<String>) -> (r: Vec<String>)
        requires
            self.wf(),
        ensures
            r@ == unreferenced(cache_files@, self@),
    {
        let mut out: Vec<String> = Vec::new();
        let mut i: usize = 0;
        while i < cache_files.len()
            invariant
                self.wf(),
                i <= cache_files@.len(),
                out@ == unreferenced(cache_files@.take(i as int), self@),
            decreases cache_files@.len() - i,
        {
            let f = &cache_files[i];
            let mut used = false;
            let mut j: usize = 0;
            while j < self.tracks.len()
                invariant_except_break
                    !used,
                invariant
                    j <= self.tracks@.len(),
                    forall|k: int| 0 <= k < j ==> self.tracks@[k].cover@ != f@,
                ensures
                    used <==> exists|k: int| 0 <= k < self.tracks@.len() && self.tracks@[k].cover@ == f@,
                decreases self.tracks@.len() - j,
            {
                if self.tracks[j].cover == *f {
                    used = true;
                    break;
                }
                j = j + 1;
            }
            proof {
                lemma_index_len(self.tracks@);
                if used {
                    let k = choose|k: int| 0 <= k < self.tracks@.len() && self.tracks@[k].cover@ == f@;
                    assert(indexed(self@, self.tracks@[k]));
                    assert(self@[self.tracks@[k].path@].cover@ == f@);
                } else {
                    if cover_referenced(self@, f@) {
                        let p = choose|p: Seq<char>| self@.contains_key(p) && #[trigger] self@[p].cover@ == f@;
                        lemma_lookup_index(self.tracks@, p);
                        assert(self.tracks@[lookup_index(self.tracks@, p)].cover@ == f@);
                    }
                }
                assert(cache_files@.take(i + 1).drop_last() =~= cache_files@.take(i as int));
            }
            if !used {
                out.push(f.clone());
            }
            i = i + 1;
        }
        assert(cache_files@.take(cache_files@.len() as int) =~= cache_files@);
        out
    }
}

} // verus!
