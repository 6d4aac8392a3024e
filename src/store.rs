//! The durable aggregate: approved channels, client registrations and the
//! channels each user follows, with its encoding for the store file.

use vstd::prelude::*;

verus! {

/// A registration as stored: the client token, the game account it was
/// issued for, and the chat user it belongs to.
pub type RegistrationEntry = (u128, u64, u64);

/// A user's tracked channels as stored.
pub type TrackEntry = (u64, Vec<u64>);

/// The abstract content of a [`SaveData`]: the bound channels, the
/// registrations in the order they were made, and the tracks.
pub type SaveRecord = (Seq<u64>, Seq<(u128, u64, u64)>, Seq<(u64, Seq<u64>)>);

pub open spec fn empty_record() -> SaveRecord {
    (Seq::empty(), Seq::empty(), Seq::empty())
}

pub open spec fn tracks_view(s: Seq<TrackEntry>) -> Seq<(u64, Seq<u64>)> {
    s.map_values(|e: TrackEntry| (e.0, e.1@))
}

/// Registrations as a map from client identity (token, account) to user;
/// a later registration of the same identity wins.
pub open spec fn reg_map(s: Seq<(u128, u64, u64)>) -> Map<(u128, u64), u64>
    decreases s.len(),
{
    if s.len() == 0 {
        Map::empty()
    } else {
        reg_map(s.drop_last()).insert((s.last().0, s.last().1), s.last().2)
    }
}

/// Tracks as a map from user to the set of channels that user follows.
pub open spec fn track_map(s: Seq<(u64, Seq<u64>)>) -> Map<u64, Set<u64>>
    decreases s.len(),
{
    if s.len() == 0 {
        Map::empty()
    } else {
        track_map(s.drop_last()).insert(s.last().0, s.last().1.to_set())
    }
}

pub open spec fn keys_unique(s: Seq<(u64, Seq<u64>)>) -> bool {
    forall|i: int, j: int| 0 <= i < j < s.len() ==> s[i].0 != s[j].0
}

/// What a well-formed aggregate satisfies: no channel bound twice, one track
/// entry per user, each with at least one channel, none twice, and every
/// tracked channel bound.
pub open spec fn record_ok(r: SaveRecord) -> bool {
    &&& r.0.no_duplicates()
    &&& keys_unique(r.2)
    &&& forall|i: int| 0 <= i < r.2.len() ==> {
        &&& (#[trigger] r.2[i]).1.len() > 0
        &&& r.2[i].1.no_duplicates()
        &&& forall|k: int| 0 <= k < r.2[i].1.len() ==> r.0.contains(r.2[i].1[k])
    }
}

pub open spec fn bindings_of(r: SaveRecord) -> Set<u64> {
    r.0.to_set()
}

pub open spec fn registrations_of(r: SaveRecord) -> Map<(u128, u64), u64> {
    reg_map(r.1)
}

pub open spec fn tracks_of(r: SaveRecord) -> Map<u64, Set<u64>> {
    track_map(r.2)
}

proof fn lemma_reg_map_skip(s: Seq<(u128, u64, u64)>, i: int, k: (u128, u64))
    requires
        0 <= i <= s.len(),
        forall|j: int| i <= j < s.len() ==> (s[j].0, s[j].1) != k,
    ensures
        reg_map(s).contains_key(k) == reg_map(s.take(i)).contains_key(k),
        reg_map(s).contains_key(k) ==> reg_map(s)[k] == reg_map(s.take(i))[k],
    decreases s.len(),
{
    if i == s.len() {
        assert(s.take(i) =~= s);
    } else {
        lemma_reg_map_skip(s.drop_last(), i, k);
        assert(s.drop_last().take(i) =~= s.take(i));
    }
}

proof fn lemma_track_absent(s: Seq<(u64, Seq<u64>)>, u: u64)
    requires
        forall|j: int| 0 <= j < s.len() ==> s[j].0 != u,
    ensures
        !track_map(s).contains_key(u),
    decreases s.len(),
{
    if s.len() > 0 {
        lemma_track_absent(s.drop_last(), u);
    }
}

proof fn lemma_track_at(s: Seq<(u64, Seq<u64>)>, i: int)
    requires
        0 <= i < s.len(),
        keys_unique(s),
    ensures
        track_map(s).contains_key(s[i].0),
        track_map(s)[s[i].0] == s[i].1.to_set(),
    decreases s.len(),
{
    if i < s.len() - 1 {
        lemma_track_at(s.drop_last(), i);
    }
}

proof fn lemma_track_update(s: Seq<(u64, Seq<u64>)>, i: int, e: (u64, Seq<u64>))
    requires
        0 <= i < s.len(),
        keys_unique(s),
        e.0 == s[i].0,
    ensures
        track_map(s.update(i, e)) == track_map(s).insert(e.0, e.1.to_set()),
    decreases s.len(),
{
    let t = s.update(i, e);
    if i == s.len() - 1 {
        assert(t.drop_last() =~= s.drop_last());
        assert(track_map(t) =~= track_map(s).insert(e.0, e.1.to_set()));
    } else {
        assert(t.drop_last() =~= s.drop_last().update(i, e));
        lemma_track_update(s.drop_last(), i, e);
        assert(track_map(t) =~= track_map(s).insert(e.0, e.1.to_set()));
    }
}

proof fn lemma_track_remove(s: Seq<(u64, Seq<u64>)>, i: int)
    requires
        0 <= i < s.len(),
        keys_unique(s),
    ensures
        track_map(s.remove(i)) == track_map(s).remove(s[i].0),
    decreases s.len(),
{
    let t = s.remove(i);
    if i == s.len() - 1 {
        assert(t =~= s.drop_last());
        lemma_track_absent(s.drop_last(), s[i].0);
        assert(track_map(t) =~= track_map(s).remove(s[i].0));
    } else {
        assert(t.drop_last() =~= s.drop_last().remove(i));
        lemma_track_remove(s.drop_last(), i);
        assert(track_map(t) =~= track_map(s).remove(s[i].0));
    }
}

/// Whether `v` holds `x`.
pub fn contains_id(v: &Vec<u64>, x: u64) -> (r: bool)
    ensures
        r == v@.contains(x),
{
    let mut i: usize = 0;
    while i < v.len()
        invariant
            i <= v.len(),
            forall|j: int| 0 <= j < i ==> v@[j] != x,
        decreases v.len() - i,
    {
        if v[i] == x {
            return true;
        }
        i = i + 1;
    }
    false
}

/// A copy of a list of identifiers.
pub fn copy_ids(v: &Vec<u64>) -> (r: Vec<u64>)
    ensures
        r@ == v@,
{
    let mut r: Vec<u64> = Vec::new();
    let mut i: usize = 0;
    while i < v.len()
        invariant
            i <= v.len(),
            r@ == v@.take(i as int),
        decreases v.len() - i,
    {
        r.push(v[i]);
        i = i + 1;
        assert(r@ =~= v@.take(i as int));
    }
    assert(v@.take(i as int) =~= v@);
    r
}

/// Whether no identifier occurs twice in `v`.
pub fn distinct_ids(v: &Vec<u64>) -> (r: bool)
    ensures
        r == v@.no_duplicates(),
{
    let mut i: usize = 0;
    while i < v.len()
        invariant
            i <= v.len(),
            forall|a: int, b: int| 0 <= a < b < i ==> v@[a] != v@[b],
        decreases v.len() - i,
    {
        let mut j: usize = 0;
        while j < i
            invariant
                i < v.len(),
                j <= i,
                forall|a: int| 0 <= a < j ==> v@[a] != v@[i as int],
            decreases i - j,
        {
            if v[j] == v[i] {
                return false;
            }
            j = j + 1;
        }
        i = i + 1;
    }
    true
}

/// Whether each element of `v` occurs in `within`.
fn all_within(v: &Vec<u64>, within: &Vec<u64>) -> (r: bool)
    ensures
        r == (forall|k: int| 0 <= k < v@.len() ==> within@.contains(v@[k])),
{
    let mut i: usize = 0;
    while i < v.len()
        invariant
            i <= v.len(),
            forall|k: int| 0 <= k < i ==> within@.contains(v@[k]),
        decreases v.len() - i,
    {
        if !contains_id(within, v[i]) {
            return false;
        }
        i = i + 1;
    }
    true
}

/// Whether the track entries are well formed against the bound `channels`.
fn tracks_fit(channels: &Vec<u64>, tracks: &Vec<TrackEntry>) -> (r: bool)
    ensures
        r == (keys_unique(tracks_view(tracks@)) && forall|i: int|
            0 <= i < tracks@.len() ==> {
                &&& (#[trigger] tracks@[i]).1@.len() > 0
                &&& tracks@[i].1@.no_duplicates()
                &&& forall|k: int|
                    0 <= k < tracks@[i].1@.len() ==> channels@.contains(tracks@[i].1@[k])
            }),
{
    let ghost tv = tracks_view(tracks@);
    let mut i: usize = 0;
    while i < tracks.len()
        invariant
            tv == tracks_view(tracks@),
            i <= tracks.len(),
            forall|a: int, b: int| 0 <= a < b < i ==> tv[a].0 != tv[b].0,
            forall|a: int|
                0 <= a < i ==> {
                    &&& (#[trigger] tracks@[a]).1@.len() > 0
                    &&& tracks@[a].1@.no_duplicates()
                    &&& forall|k: int|
                        0 <= k < tracks@[a].1@.len() ==> channels@.contains(tracks@[a].1@[k])
                },
        decreases tracks.len() - i,
    {
        let entry = &tracks[i];
        if entry.1.len() == 0 || !distinct_ids(&entry.1) || !all_within(&entry.1, channels) {
            return false;
        }
        let mut j: usize = 0;
        while j < i
            invariant
                tv == tracks_view(tracks@),
                i < tracks.len(),
                j <= i,
                forall|a: int| 0 <= a < j ==> tv[a].0 != tv[i as int].0,
            decreases i - j,
        {
            if tracks[j].0 == tracks[i].0 {
                assert(tv[j as int].0 == tv[i as int].0);
                return false;
            }
            j = j + 1;
        }
        i = i + 1;
    }
    true
}

/// The name of what `rmp_serde::to_vec` makes of the three stored lists.
pub uninterp spec fn packed(r: (Seq<u64>, Seq<(u128, u64, u64)>, Seq<(u64, Seq<u64>)>)) -> Seq<u8>;

/// The name of what `rmp_serde::from_slice` reads from bytes as the three
/// stored lists, `None` where it fails.
pub uninterp spec fn unpacked(b: Seq<u8>) -> Option<(Seq<u64>, Seq<(u128, u64, u64)>, Seq<(u64, Seq<u64>)>)>;

/// Relies on `rmp_serde::to_vec`: the MessagePack encoding of the three lists
/// as one array, which `rmp_serde::from_slice` reads back as the same lists.
/// The encoder writes into a `Vec` and fails only when memory runs out.
#[verifier::external_body]
fn pack(channels: &Vec<u64>, users: &Vec<RegistrationEntry>, tracks: &Vec<TrackEntry>) -> (r: Vec<u8>)
    ensures
        r@ == packed((channels@, users@, tracks_view(tracks@))),
        unpacked(r@) == Some((channels@, users@, tracks_view(tracks@))),
{
    match rmp_serde::to_vec(&(channels, users, tracks)) {
        Ok(bytes) => bytes,
        Err(_) => Vec::new(),
    }
}

/// Relies on `rmp_serde::from_slice`: reads the three lists back from
/// MessagePack bytes; a decoder error gives `None`.
#[verifier::external_body]
fn unpack(b: &[u8]) -> (r: Option<(Vec<u64>, Vec<RegistrationEntry>, Vec<TrackEntry>)>)
    ensures
        match r {
            Some(v) => unpacked(b@) == Some((v.0@, v.1@, tracks_view(v.2@))),
            None => unpacked(b@) is None,
        },
{
    rmp_serde::from_slice(b).ok()
}

/// What loading `b` from the store file yields: the record it reads as when
/// that record is well formed, else the empty aggregate.
pub open spec fn decoded(b: Seq<u8>) -> SaveRecord {
    match unpacked(b) {
        Some(v) => if record_ok(v) {
            v
        } else {
            empty_record()
        },
        None => empty_record(),
    }
}

proof fn lemma_reg_key_source(s: Seq<(u128, u64, u64)>, k: (u128, u64))
    requires
        reg_map(s).contains_key(k),
    ensures
        exists|i: int| 0 <= i < s.len() && s[i].0 == k.0 && s[i].1 == k.1,
    decreases s.len(),
{
    let n = s.len() - 1;
    if (s[n].0, s[n].1) != k {
        lemma_reg_key_source(s.drop_last(), k);
        let i = choose|i: int|
            0 <= i < s.drop_last().len() && s.drop_last()[i].0 == k.0 && s.drop_last()[i].1 == k.1;
        assert(s[i] == s.drop_last()[i]);
    }
}

proof fn lemma_reg_key_present(s: Seq<(u128, u64, u64)>, i: int)
    requires
        0 <= i < s.len(),
    ensures
        reg_map(s).contains_key((s[i].0, s[i].1)),
    decreases s.len(),
{
    if i < s.len() - 1 {
        lemma_reg_key_present(s.drop_last(), i);
        assert(s.drop_last()[i] == s[i]);
    }
}

/// Approved channels, client registrations and per-user tracked channels.
pub struct SaveData {
    channels: Vec<u64>,
    users: Vec<RegistrationEntry>,
    tracks: Vec<TrackEntry>,
}

impl View for SaveData {
    type V = SaveRecord;

    closed spec fn view(&self) -> SaveRecord {
        (self.channels@, self.users@, tracks_view(self.tracks@))
    }
}

impl SaveData {
    pub open spec fn wf(&self) -> bool {
        record_ok(self@)
    }

    /// The channels approved as notification destinations.
    pub open spec fn bindings(&self) -> Set<u64> {
        bindings_of(self@)
    }

    /// Client identity (token, account) to user.
    pub open spec fn registrations(&self) -> Map<(u128, u64), u64> {
        registrations_of(self@)
    }

    /// User to the channels that user follows; a user without any has no entry.
    pub open spec fn tracks(&self) -> Map<u64, Set<u64>> {
        tracks_of(self@)
    }

    /// The aggregate of a first run: nothing bound, registered or tracked.
    pub fn new() -> (r: SaveData)
        ensures
            r.wf(),
            r@ == empty_record(),
            r.bindings() == Set::<u64>::empty(),
            r.registrations() == Map::<(u128, u64), u64>::empty(),
            r.tracks() == Map::<u64, Set<u64>>::empty(),
    {
        let r = SaveData { channels: Vec::new(), users: Vec::new(), tracks: Vec::new() };
        assert(r@.2 =~= Seq::<(u64, Seq<u64>)>::empty());
        assert(r.bindings() =~= Set::<u64>::empty());
        r
    }

    /// Whether `channel` is approved as a notification destination.
    pub fn is_bound(&self, channel: u64) -> (r: bool)
        ensures
            r == self.bindings().contains(channel),
    {
        contains_id(&self.channels, channel)
    }

    /// Approves `channel`; approving it again changes nothing.
    pub fn bind_channel(&mut self, channel: u64)
        requires
            old(self).wf(),
        ensures
            final(self).wf(),
            final(self).bindings() == old(self).bindings().insert(channel),
            final(self).registrations() == old(self).registrations(),
            final(self).tracks() == old(self).tracks(),
    {
        if !contains_id(&self.channels, channel) {
            self.channels.push(channel);
            proof {
                let r = self@;
                assert forall|i: int, k: int|
                    0 <= i < r.2.len() && 0 <= k < r.2[i].1.len() implies r.0.contains(
                    r.2[i].1[k],
                ) by {
                    let c = r.2[i].1[k];
                    assert(old(self)@.0.contains(c));
                    let w = choose|w: int| 0 <= w < old(self)@.0.len() && old(self)@.0[w] == c;
                    assert(r.0[w] == c);
                }
            }
        }
        proof {
            let n = self@.0;
            let o = old(self)@.0;
            assert forall|x: u64| n.contains(x) <==> o.contains(x) || x == channel by {
                if o.contains(x) {
                    let w = choose|w: int| 0 <= w < o.len() && o[w] == x;
                    assert(n[w] == x);
                }
                if x == channel && !o.contains(x) {
                    assert(n[n.len() - 1] == x);
                }
                if n.contains(x) && n != o {
                    let w = choose|w: int| 0 <= w < n.len() && n[w] == x;
                    if w < o.len() {
                        assert(o[w] == x);
                    }
                }
            }
        }
        assert(self.bindings() =~= old(self).bindings().insert(channel));
    }

    /// The user registered under client identity (`token`, `steam_id`), if any.
    pub fn find_user(&self, token: u128, steam_id: u64) -> (r: Option<u64>)
        ensures
            r == (if self.registrations().contains_key((token, steam_id)) {
                Some(self.registrations()[(token, steam_id)])
            } else {
                None
            }),
    {
        let ghost s = self.users@;
        let ghost k = (token, steam_id);
        let mut i: usize = self.users.len();
        while i > 0
            invariant
                i <= self.users.len(),
                s == self.users@,
                k == (token, steam_id),
                forall|j: int| i <= j < s.len() ==> (s[j].0, s[j].1) != k,
            decreases i,
        {
            i = i - 1;
            let e = self.users[i];
            assert(e == s[i as int]);
            if e.0 == token && e.1 == steam_id {
                proof {
                    lemma_reg_map_skip(s, i + 1, k);
                    let t = s.take(i + 1);
                    assert(t.drop_last() =~= s.take(i as int));
                    assert(t.last() == e);
                    assert(reg_map(t) == reg_map(t.drop_last()).insert((e.0, e.1), e.2));
                }
                return Some(e.2);
            }
        }
        proof {
            lemma_reg_map_skip(s, 0, k);
        }
        None
    }

    /// Registers the client identity (`token`, `steam_id`) for `user`.
    pub fn register(&mut self, token: u128, steam_id: u64, user: u64)
        requires
            old(self).wf(),
        ensures
            final(self).wf(),
            final(self).bindings() == old(self).bindings(),
            final(self).registrations() == old(self).registrations().insert(
                (token, steam_id),
                user,
            ),
            final(self).tracks() == old(self).tracks(),
    {
        self.users.push((token, steam_id, user));
        assert(self.users@.drop_last() =~= old(self).users@);
    }

    /// The position of `user`'s track entry, if there is one.
    fn find_track(&self, user: u64) -> (r: Option<usize>)
        ensures
            match r {
                Some(i) => i < self.tracks@.len() && self.tracks@[i as int].0 == user,
                None => forall|j: int| 0 <= j < self.tracks@.len() ==> self.tracks@[j].0 != user,
            },
    {
        let mut i: usize = 0;
        while i < self.tracks.len()
            invariant
                i <= self.tracks@.len(),
                forall|j: int| 0 <= j < i ==> self.tracks@[j].0 != user,
            decreases self.tracks@.len() - i,
        {
            if self.tracks[i].0 == user {
                return Some(i);
            }
            i = i + 1;
        }
        None
    }

    /// The channels `user` follows, each once; empty where there are none.
    pub fn tracked_channels(&self, user: u64) -> (r: Vec<u64>)
        requires
            self.wf(),
        ensures
            r@.no_duplicates(),
            self.tracks().contains_key(user) ==> r@.len() > 0 && r@.to_set() == self.tracks()[user]
                && r@.len() == self.tracks()[user].len(),
            !self.tracks().contains_key(user) ==> r@.len() == 0,
    {
        match self.find_track(user) {
            Some(i) => {
                proof {
                    lemma_track_at(self@.2, i as int);
                    self@.2[i as int].1.unique_seq_to_set();
                }
                copy_ids(&self.tracks[i].1)
            },
            None => {
                proof {
                    lemma_track_absent(self@.2, user);
                }
                Vec::new()
            },
        }
    }

    /// Subscribes `user` to `channel`. Refused, with nothing changed, when the
    /// channel is not approved; subscribing twice changes nothing more.
    pub fn add_track(&mut self, user: u64, channel: u64) -> (r: bool)
        requires
            old(self).wf(),
        ensures
            final(self).wf(),
            r == old(self).bindings().contains(channel),
            r ==> final(self).tracks() == old(self).tracks().insert(
                user,
                if old(self).tracks().contains_key(user) {
                    old(self).tracks()[user].insert(channel)
                } else {
                    set![channel]
                },
            ),
            !r ==> final(self)@ == old(self)@,
            final(self).bindings() == old(self).bindings(),
            final(self).registrations() == old(self).registrations(),
    {
        if !contains_id(&self.channels, channel) {
            return false;
        }
        let ghost o = self@.2;
        match self.find_track(user) {
            Some(i) => {
                proof {
                    lemma_track_at(o, i as int);
                }
                let mut list = copy_ids(&self.tracks[i].1);
                if contains_id(&list, channel) {
                    assert(o[i as int].1.to_set().insert(channel) =~= o[i as int].1.to_set());
                    assert(self.tracks() =~= old(self).tracks().insert(user, old(self).tracks()[user].insert(channel)));
                    return true;
                }
                list.push(channel);
                let ghost e = (user, list@);
                self.tracks.set(i, (user, list));
                proof {
                    assert(self@.2 =~= o.update(i as int, e));
                    lemma_track_update(o, i as int, e);
                    assert(e.1 == o[i as int].1.push(channel));
                    o[i as int].1.lemma_push_to_set_commute(channel);
                    assert forall|k: int| 0 <= k < e.1.len() implies self@.0.contains(e.1[k]) by {
                        if k < e.1.len() - 1 {
                            assert(e.1[k] == o[i as int].1[k]);
                        }
                    }
                }
            },
            None => {
                let mut list: Vec<u64> = Vec::new();
                list.push(channel);
                let ghost e = (user, list@);
                self.tracks.push((user, list));
                proof {
                    assert(self@.2 =~= o.push(e));
                    assert(self@.2.drop_last() =~= o);
                    assert(e.1 == Seq::<u64>::empty().push(channel));
                    Seq::<u64>::empty().lemma_push_to_set_commute(channel);
                    assert(Seq::<u64>::empty().to_set() =~= Set::<u64>::empty());
                    assert(e.1.to_set() =~= set![channel]);
                    lemma_track_absent(o, user);
                }
            },
        }
        true
    }

    /// Unsubscribes `user` from `channel`, dropping the user's entry when it
    /// becomes empty. Returns whether anything was removed; when nothing was,
    /// the aggregate is unchanged.
    pub fn remove_track(&mut self, user: u64, channel: u64) -> (r: bool)
        requires
            old(self).wf(),
        ensures
            final(self).wf(),
            r == (old(self).tracks().contains_key(user) && old(self).tracks()[user].contains(
                channel,
            )),
            r ==> final(self).tracks() == (if old(self).tracks()[user].remove(channel)
                == Set::<u64>::empty() {
                old(self).tracks().remove(user)
            } else {
                old(self).tracks().insert(user, old(self).tracks()[user].remove(channel))
            }),
            !r ==> final(self)@ == old(self)@,
            final(self).bindings() == old(self).bindings(),
            final(self).registrations() == old(self).registrations(),
    {
        let ghost o = self@.2;
        let i = match self.find_track(user) {
            Some(i) => i,
            None => {
                proof {
                    lemma_track_absent(o, user);
                }
                return false;
            },
        };
        proof {
            lemma_track_at(o, i as int);
        }
        let ghost old_list = o[i as int].1;
        let mut list = copy_ids(&self.tracks[i].1);
        let mut j: usize = 0;
        while j < list.len()
            invariant
                list@ == old_list,
                j <= list@.len(),
                forall|q: int| 0 <= q < j ==> list@[q] != channel,
        ensures
            list@ == old_list,
            j <= list@.len(),
            forall|q: int| 0 <= q < j ==> list@[q] != channel,
            j < list@.len() ==> list@[j as int] == channel,
            decreases list@.len() - j,
        {
            if list[j] == channel {
                break;
            }
            j = j + 1;
        }
        if j == list.len() {
            return false;
        }
        list.remove(j);
        let ghost rest = list@;
        proof {
            assert(old_list[j as int] == channel);
            assert forall|x: u64| rest.contains(x) <==> old_list.contains(x) && x != channel by {
                if rest.contains(x) {
                    let w = choose|w: int| 0 <= w < rest.len() && rest[w] == x;
                    if w < j {
                        assert(old_list[w] == x);
                    } else {
                        assert(old_list[w + 1] == x);
                    }
                }
                if old_list.contains(x) && x != channel {
                    let w = choose|w: int| 0 <= w < old_list.len() && old_list[w] == x;
                    if w < j {
                        assert(rest[w] == x);
                    } else {
                        assert(rest[w - 1] == x);
                    }
                }
            }
            assert(rest.to_set() =~= old_list.to_set().remove(channel));
        }
        if list.len() == 0 {
            self.tracks.remove(i);
            proof {
                assert(self@.2 =~= o.remove(i as int));
                lemma_track_remove(o, i as int);
                assert(rest.to_set() =~= Set::<u64>::empty());
                assert forall|a: int, b: int| 0 <= a < b < self@.2.len() implies self@.2[a].0
                    != self@.2[b].0 by {
                    let a2 = if a < i { a } else { a + 1 };
                    let b2 = if b < i { b } else { b + 1 };
                    assert(self@.2[a] == o[a2]);
                    assert(self@.2[b] == o[b2]);
                }
            }
        } else {
            let ghost e = (user, list@);
            self.tracks.set(i, (user, list));
            proof {
                assert(self@.2 =~= o.update(i as int, e));
                lemma_track_update(o, i as int, e);
                assert(rest.contains(rest[0]));
                assert(rest.to_set().contains(rest[0]));
                assert forall|k: int| 0 <= k < rest.len() implies self@.0.contains(rest[k]) by {
                    assert(rest.contains(rest[k]));
                    assert(old_list.contains(rest[k]));
                    let w = choose|w: int| 0 <= w < old_list.len() && old_list[w] == rest[k];
                    assert(o[i as int].1[w] == rest[k]);
                }
                assert forall|a: int, b: int| 0 <= a < b < rest.len() implies rest[a] != rest[b] by {
                    let a2 = if a < j { a } else { a + 1 };
                    let b2 = if b < j { b } else { b + 1 };
                    assert(rest[a] == old_list[a2]);
                    assert(rest[b] == old_list[b2]);
                }
            }
        }
        true
    }

    /// Whether some registration was issued with token `t`.
    pub open spec fn token_used(&self, t: u128) -> bool {
        exists|k: (u128, u64)| self.registrations().contains_key(k) && k.0 == t
    }

    /// Whether some registration was issued with token `t`.
    pub fn token_in_use(&self, t: u128) -> (r: bool)
        ensures
            r == self.token_used(t),
    {
        let mut i: usize = 0;
        while i < self.users.len()
            invariant
                i <= self.users@.len(),
                forall|j: int| 0 <= j < i ==> self.users@[j].0 != t,
            decreases self.users@.len() - i,
        {
            if self.users[i].0 == t {
                proof {
                    lemma_reg_key_present(self.users@, i as int);
                    let k = (self.users@[i as int].0, self.users@[i as int].1);
                    assert(self.registrations().contains_key(k) && k.0 == t);
                }
                return true;
            }
            i = i + 1;
        }
        proof {
            if self.token_used(t) {
                let k = choose|k: (u128, u64)| self.registrations().contains_key(k) && k.0 == t;
                lemma_reg_key_source(self.users@, k);
            }
        }
        false
    }

    /// `draw` where no registration uses it, else the least token that none uses.
    pub fn unused_token(&self, draw: u128) -> (r: u128)
        ensures
            !self.token_used(r),
            !self.token_used(draw) ==> r == draw,
    {
        if !self.token_in_use(draw) {
            return draw;
        }
        let n = self.users.len();
        let ghost toks = self.users@.map_values(|e: RegistrationEntry| e.0 as int);
        let ghost ts = toks.to_set();
        let mut c: u128 = 0;
        loop
            invariant
                n == self.users@.len(),
                self.token_used(draw),
                toks == self.users@.map_values(|e: RegistrationEntry| e.0 as int),
                ts == toks.to_set(),
                c <= n,
                forall|x: int| 0 <= x < c ==> ts.contains(x),
            decreases n - c,
        {
            if !self.token_in_use(c) {
                return c;
            }
            proof {
                let k = choose|k: (u128, u64)| self.registrations().contains_key(k) && k.0 == c;
                lemma_reg_key_source(self.users@, k);
                let i = choose|i: int|
                    0 <= i < self.users@.len() && self.users@[i].0 == k.0 && self.users@[i].1 == k.1;
                assert(toks[i] == c as int);
                assert(ts.contains(c as int));
                let range = vstd::set_lib::set_int_range(0, c + 1);
                assert(range.subset_of(ts));
                vstd::set_lib::lemma_int_range(0, c + 1);
                vstd::seq_lib::seq_to_set_is_finite(toks);
                toks.lemma_cardinality_of_set();
                vstd::set_lib::lemma_len_subset(range, ts);
            }
            c = c + 1;
        }
    }

    /// The aggregate holding exactly the given lists, when they are well formed.
    pub fn from_record(
        channels: Vec<u64>,
        users: Vec<RegistrationEntry>,
        tracks: Vec<TrackEntry>,
    ) -> (r: Option<SaveData>)
        ensures
            r is Some <==> record_ok((channels@, users@, tracks_view(tracks@))),
            r matches Some(d) ==> d@ == (channels@, users@, tracks_view(tracks@)),
    {
        let ghost rec = (channels@, users@, tracks_view(tracks@));
        if !distinct_ids(&channels) || !tracks_fit(&channels, &tracks) {
            proof {
                if record_ok(rec) {
                    assert forall|i: int| 0 <= i < tracks@.len() implies {
                        &&& (#[trigger] tracks@[i]).1@.len() > 0
                        &&& tracks@[i].1@.no_duplicates()
                        &&& forall|k: int|
                            0 <= k < tracks@[i].1@.len() ==> channels@.contains(tracks@[i].1@[k])
                    } by {
                        assert(rec.2[i].1 == tracks@[i].1@);
                    }
                }
            }
            return None;
        }
        proof {
            assert forall|i: int| 0 <= i < rec.2.len() implies {
                &&& (#[trigger] rec.2[i]).1.len() > 0
                &&& rec.2[i].1.no_duplicates()
                &&& forall|k: int| 0 <= k < rec.2[i].1.len() ==> rec.0.contains(rec.2[i].1[k])
            } by {
                assert(rec.2[i].1 == tracks@[i].1@);
            }
        }
        Some(SaveData { channels, users, tracks })
    }

    /// The bytes of the store file for this aggregate. Loading them gives
    /// back this aggregate: the same bindings, registrations and tracks.
    pub fn encode(&self) -> (r: Vec<u8>)
        requires
            self.wf(),
        ensures
            r@ == packed(self@),
            decoded(r@) == self@,
            bindings_of(decoded(r@)) == self.bindings(),
            registrations_of(decoded(r@)) == self.registrations(),
            tracks_of(decoded(r@)) == self.tracks(),
    {
        pack(&self.channels, &self.users, &self.tracks)
    }

    /// The aggregate stored in `bytes`, where they read as a well-formed one.
    pub fn try_decode(bytes: &[u8]) -> (r: Option<SaveData>)
        ensures
            r is Some <==> (unpacked(bytes@) is Some && record_ok(unpacked(bytes@)->0)),
            r matches Some(d) ==> d@ == unpacked(bytes@)->0,
    {
        match unpack(bytes) {
            Some(v) => SaveData::from_record(v.0, v.1, v.2),
            None => None,
        }
    }

    /// The aggregate stored in `bytes`; the empty one where they do not read
    /// as a well-formed aggregate.
    pub fn decode(bytes: &[u8]) -> (r: SaveData)
        ensures
            r.wf(),
            r@ == decoded(bytes@),
    {
        match SaveData::try_decode(bytes) {
            Some(d) => d,
            None => SaveData::new(),
        }
    }
}

proof fn lemma_track_member(s: Seq<(u64, Seq<u64>)>, u: u64, c: u64)
    requires
        track_map(s).contains_key(u),
        track_map(s)[u].contains(c),
    ensures
        exists|i: int, k: int| 0 <= i < s.len() && 0 <= k < s[i].1.len() && s[i].0 == u && s[i].1[k] == c,
    decreases s.len(),
{
    let n = (s.len() - 1) as int;
    if s[n].0 == u {
        let k = choose|k: int| 0 <= k < s[n].1.len() && s[n].1[k] == c;
        assert(s[n].1[k] == c);
    } else {
        lemma_track_member(s.drop_last(), u, c);
        let (i, k) = choose|i: int, k: int|
            0 <= i < s.drop_last().len() && 0 <= k < s.drop_last()[i].1.len() && s.drop_last()[i].0 == u
                && s.drop_last()[i].1[k] == c;
        assert(s[i] == s.drop_last()[i]);
    }
}

/// Every channel a user follows is bound: in a well-formed aggregate a track
/// never names a channel outside the bindings.
pub proof fn lemma_tracked_are_bound(d: SaveData, user: u64, channel: u64)
    requires
        d.wf(),
        d.tracks().contains_key(user),
        d.tracks()[user].contains(channel),
    ensures
        d.bindings().contains(channel),
{
    lemma_track_member(d@.2, user, channel);
}

} // verus!
