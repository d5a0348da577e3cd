//! The conversation store: conversations keyed by id, kept in id order, as
//! they are written to and read back from disk.
use vstd::prelude::*;
use crate::domain::{Conversation, ConversationView};
use crate::text::chars_of;

verus! {

/// `a` sorts before `b` as `String`s do: by the first differing character
/// (by code point, which is also the order of their UTF-8 bytes), a proper
/// prefix first.
pub open spec fn id_less(a: Seq<char>, b: Seq<char>) -> bool
    decreases a.len(),
{
    if a.len() == 0 {
        b.len() > 0
    } else if b.len() == 0 {
        false
    } else if a[0] != b[0] {
        a[0] < b[0]
    } else {
        id_less(a.drop_first(), b.drop_first())
    }
}

/// No string sorts before itself.
pub proof fn lemma_id_less_irreflexive(a: Seq<char>)
    ensures
        !id_less(a, a),
    decreases a.len(),
{
    if a.len() > 0 {
        lemma_id_less_irreflexive(a.drop_first());
    }
}

/// The order of strings is transitive.
pub proof fn lemma_id_less_transitive(a: Seq<char>, b: Seq<char>, c: Seq<char>)
    requires
        id_less(a, b),
        id_less(b, c),
    ensures
        id_less(a, c),
    decreases a.len(),
{
    if a.len() > 0 && b.len() > 0 && c.len() > 0 && a[0] == b[0] && b[0] == c[0] {
        lemma_id_less_transitive(a.drop_first(), b.drop_first(), c.drop_first());
    }
}

/// Of two different strings, one sorts before the other.
pub proof fn lemma_id_less_total(a: Seq<char>, b: Seq<char>)
    requires
        a != b,
    ensures
        id_less(a, b) || id_less(b, a),
    decreases a.len(),
{
    if a.len() > 0 && b.len() > 0 && a[0] == b[0] {
        if a.drop_first() == b.drop_first() {
            assert(a =~= seq![a[0]] + a.drop_first());
            assert(b =~= seq![b[0]] + b.drop_first());
        }
        lemma_id_less_total(a.drop_first(), b.drop_first());
    } else if a.len() == 0 && b.len() == 0 {
        assert(a =~= b);
    }
}

/// Whether `a` sorts before `b` (`a < b` on strings).
pub fn id_less_exec(a: &str, b: &str) -> (r: bool)
    ensures
        r == id_less(a@, b@),
{
    let x = chars_of(a);
    let y = chars_of(b);
    let mut i: usize = 0;
    assert(a@.skip(0) =~= a@ && b@.skip(0) =~= b@);
    while i < x.len() && i < y.len() && x[i] == y[i]
        invariant
            x@ == a@,
            y@ == b@,
            i <= x@.len(),
            i <= y@.len(),
            id_less(a@, b@) == id_less(a@.skip(i as int), b@.skip(i as int)),
        decreases x.len() - i,
    {
        assert(a@.skip(i as int).drop_first() =~= a@.skip(i + 1));
        assert(b@.skip(i as int).drop_first() =~= b@.skip(i + 1));
        i = i + 1;
    }
    if i == x.len() {
        i < y.len()
    } else if i == y.len() {
        false
    } else {
        x[i] < y[i]
    }
}

/// The conversation with id `id` among `entries`, which hold each id once.
pub open spec fn entries_map(entries: Seq<ConversationView>) -> Map<Seq<char>, ConversationView> {
    Map::new(
        |k: Seq<char>| exists|i: int| 0 <= i < entries.len() && entries[i].id == k,
        |k: Seq<char>| entries[choose|i: int| 0 <= i < entries.len() && entries[i].id == k],
    )
}

/// The ids of `entries` ascend strictly.
pub open spec fn ids_ascending(entries: Seq<ConversationView>) -> bool {
    forall|i: int, j: int|
        0 <= i < j < entries.len() ==> id_less(#[trigger] entries[i].id, #[trigger] entries[j].id)
}

/// The models of a list of conversations.
pub open spec fn conversations_view(v: Seq<Conversation>) -> Seq<ConversationView> {
    v.map_values(|c: Conversation| c@)
}

proof fn lemma_ascending_distinct(entries: Seq<ConversationView>, i: int, j: int)
    requires
        ids_ascending(entries),
        0 <= i < entries.len(),
        0 <= j < entries.len(),
        entries[i].id == entries[j].id,
    ensures
        i == j,
{
    if i < j {
        lemma_id_less_irreflexive(entries[i].id);
        assert(id_less(entries[i].id, entries[j].id));
    } else if j < i {
        lemma_id_less_irreflexive(entries[i].id);
        assert(id_less(entries[j].id, entries[i].id));
    }
}

proof fn lemma_map_at(entries: Seq<ConversationView>, i: int)
    requires
        ids_ascending(entries),
        0 <= i < entries.len(),
    ensures
        entries_map(entries).contains_key(entries[i].id),
        entries_map(entries)[entries[i].id] == entries[i],
{
    let k = entries[i].id;
    assert(exists|j: int| 0 <= j < entries.len() && entries[j].id == k);
    let c = choose|j: int| 0 <= j < entries.len() && entries[j].id == k;
    lemma_ascending_distinct(entries, i, c);
}

/// Conversations keyed by id.
pub struct ConversationLog {
    entries: Vec<Conversation>,
}

impl View for ConversationLog {
    type V = Map<Seq<char>, ConversationView>;

    closed spec fn view(&self) -> Map<Seq<char>, ConversationView> {
        entries_map(conversations_view(self.entries@))
    }
}

impl ConversationLog {
    #[verifier::type_invariant]
    spec fn ordered(self) -> bool {
        ids_ascending(conversations_view(self.entries@))
    }

    /// An empty store.
    pub fn new() -> (log: ConversationLog)
        ensures
            log@ == Map::<Seq<char>, ConversationView>::empty(),
    {
        let log = ConversationLog { entries: Vec::new() };
        assert(log@ =~= Map::<Seq<char>, ConversationView>::empty());
        log
    }

    /// The position of `id`, or where it would go.
    fn position(&self, id: &str) -> (r: (usize, bool))
        ensures
            r.0 <= self.entries@.len(),
            forall|j: int|
                0 <= j < r.0 ==> id_less(#[trigger] conversations_view(self.entries@)[j].id, id@),
            r.1 ==> r.0 < self.entries@.len() && conversations_view(self.entries@)[r.0 as int].id
                == id@,
            !r.1 ==> forall|j: int|
                r.0 <= j < self.entries@.len() ==> id_less(
                    id@,
                    #[trigger] conversations_view(self.entries@)[j].id,
                ),
    {
        proof {
            use_type_invariant(self);
        }
        let ghost v = conversations_view(self.entries@);
        let mut i: usize = 0;
        while i < self.entries.len()
            invariant
                i <= self.entries@.len(),
                v == conversations_view(self.entries@),
                ids_ascending(v),
                forall|j: int| 0 <= j < i ==> id_less(#[trigger] v[j].id, id@),
            decreases self.entries.len() - i,
        {
            let here = self.entries[i].id.as_str();
            if !id_less_exec(here, id) {
                let same = !id_less_exec(id, here);
                proof {
                    if same {
                        if v[i as int].id != id@ {
                            lemma_id_less_total(v[i as int].id, id@);
                        }
                    } else {
                        assert forall|j: int| i <= j < self.entries@.len() implies id_less(
                            id@,
                            #[trigger] v[j].id,
                        ) by {
                            if j > i {
                                lemma_id_less_transitive(id@, v[i as int].id, v[j].id);
                            }
                        }
                    }
                }
                return (i, same);
            }
            i = i + 1;
        }
        (i, false)
    }

    /// The conversation with `id`, if it is stored.
    pub fn get(&self, id: &str) -> (r: Option<&Conversation>)
        ensures
            match r {
                Some(c) => self@.contains_key(id@) && self@[id@] == c@,
                None => !self@.contains_key(id@),
            },
    {
        proof {
            use_type_invariant(self);
        }
        let ghost v = conversations_view(self.entries@);
        let (i, found) = self.position(id);
        if found {
            proof {
                lemma_map_at(v, i as int);
            }
            Some(&self.entries[i])
        } else {
            proof {
                if self@.contains_key(id@) {
                    let c = choose|j: int| 0 <= j < v.len() && v[j].id == id@;
                    if c < i {
                        lemma_id_less_irreflexive(id@);
                    } else {
                        lemma_id_less_irreflexive(id@);
                    }
                }
            }
            None
        }
    }

    /// Stores `conversation` under its id, replacing one stored there.
    pub fn save(&mut self, conversation: Conversation)
        ensures
            final(self)@ == old(self)@.insert(conversation.id@, conversation@),
    {
        proof {
            use_type_invariant(&*self);
        }
        let ghost old_v = conversations_view(self.entries@);
        let ghost c = conversation@;
        let (i, found) = self.position(conversation.id.as_str());
        let mut entries: Vec<Conversation> = Vec::new();
        std::mem::swap(&mut entries, &mut self.entries);
        if found {
            entries.set(i, conversation);
        } else {
            entries.insert(i, conversation);
        }
        let ghost nv = conversations_view(entries@);
        proof {
            if found {
                assert(nv =~= old_v.update(i as int, c));
            } else {
                assert(nv =~= old_v.insert(i as int, c));
            }
            assert forall|a: int, b: int| 0 <= a < b < nv.len() implies id_less(
                #[trigger] nv[a].id,
                #[trigger] nv[b].id,
            ) by {
                if found {
                    if a == i {
                        assert(old_v[a].id == c.id);
                    } else if b == i {
                        assert(old_v[b].id == c.id);
                    }
                } else {
                    if a < i && b == i {
                    } else if a == i && b > i {
                        assert(nv[b] == old_v[b - 1]);
                    } else if a < i && b > i {
                        assert(nv[b] == old_v[b - 1]);
                    } else if b < i {
                    } else {
                        assert(nv[a] == old_v[a - 1] && nv[b] == old_v[b - 1]);
                    }
                }
            }
            assert forall|k: Seq<char>| #[trigger] entries_map(nv).contains_key(k) == has_key_after_insert(old_v, c, k) by {
                if k == c.id {
                    if found {
                        assert(nv[i as int].id == k);
                    } else {
                        assert(nv[i as int].id == k);
                    }
                } else {
                    if exists|j: int| 0 <= j < old_v.len() && old_v[j].id == k {
                        let j = choose|j: int| 0 <= j < old_v.len() && old_v[j].id == k;
                        if found {
                            assert(nv[j].id == k);
                        } else if j < i {
                            assert(nv[j].id == k);
                        } else {
                            assert(nv[j + 1].id == k);
                        }
                    }
                    if exists|j: int| 0 <= j < nv.len() && nv[j].id == k {
                        let j = choose|j: int| 0 <= j < nv.len() && nv[j].id == k;
                        if found {
                            assert(old_v[j].id == k);
                        } else if j < i {
                            assert(old_v[j].id == k);
                        } else if j > i {
                            assert(old_v[j - 1].id == k);
                        }
                    }
                }
            }
            assert forall|k: Seq<char>| #[trigger] entries_map(nv).contains_key(k) implies entries_map(
                nv,
            )[k] == entries_map(old_v).insert(c.id, c)[k] by {
                let j = choose|j: int| 0 <= j < nv.len() && nv[j].id == k;
                lemma_map_at(nv, j);
                if k == c.id {
                    lemma_ascending_distinct(nv, j, i as int);
                } else if found {
                    lemma_map_at(old_v, j);
                } else if j < i {
                    lemma_map_at(old_v, j);
                } else {
                    lemma_map_at(old_v, j - 1);
                }
            }
            assert(entries_map(nv) =~= entries_map(old_v).insert(c.id, c));
        }
        self.entries = entries;
    }

    /// The stored conversations, most recently updated first and, at the
    /// same second, by id.
    pub fn conversations(&self) -> (list: Vec<Conversation>)
        ensures
            is_recency_listing(conversations_view(list@), self@),
    {
        proof {
            use_type_invariant(self);
        }
        let ghost ev = conversations_view(self.entries@);
        let mut list: Vec<Conversation> = Vec::new();
        let ghost mut origin: Seq<int> = Seq::empty();
        let ghost mut place: Seq<int> = Seq::empty();
        let mut i: usize = 0;
        while i < self.entries.len()
            invariant
                i <= self.entries@.len(),
                ev == conversations_view(self.entries@),
                ids_ascending(ev),
                list@.len() == i,
                origin.len() == i,
                place.len() == i,
                forall|k: int|
                    0 <= k < i ==> 0 <= #[trigger] origin[k] < i && conversations_view(list@)[k]
                        == ev[origin[k]],
                forall|j: int|
                    0 <= j < i ==> 0 <= #[trigger] place[j] < i && conversations_view(list@)[place[j]]
                        == ev[j],
                forall|k: int, l: int|
                    0 <= k < l < i ==> recency_before(
                        #[trigger] conversations_view(list@)[k],
                        #[trigger] conversations_view(list@)[l],
                    ),
            decreases self.entries.len() - i,
        {
            let c = self.entries[i].duplicate();
            let ghost lv = conversations_view(list@);
            let mut pos: usize = 0;
            while pos < list.len() && list[pos].updated_at_epoch_seconds
                >= c.updated_at_epoch_seconds
                invariant
                    pos <= list@.len(),
                    lv == conversations_view(list@),
                    forall|k: int|
                        0 <= k < pos ==> (#[trigger] lv[k]).updated_at_epoch_seconds
                            >= c.updated_at_epoch_seconds,
                decreases list.len() - pos,
            {
                pos = pos + 1;
            }
            list.insert(pos, c);
            proof {
                let nv = conversations_view(list@);
                assert(nv =~= lv.insert(pos as int, ev[i as int]));
                let old_origin = origin;
                let old_place = place;
                origin = old_origin.insert(pos as int, i as int);
                place = Seq::new(
                    (i + 1) as nat,
                    |j: int|
                        if j == i {
                            pos as int
                        } else if old_place[j] < pos {
                            old_place[j]
                        } else {
                            old_place[j] + 1
                        },
                );
                assert forall|k: int|
                    0 <= k < i + 1 implies 0 <= #[trigger] origin[k] < i + 1 && nv[k]
                    == ev[origin[k]] by {
                    if k < pos {
                        assert(nv[k] == lv[k]);
                    } else if k > pos {
                        assert(nv[k] == lv[k - 1]);
                    }
                }
                assert forall|j: int|
                    0 <= j < i + 1 implies 0 <= #[trigger] place[j] < i + 1 && nv[place[j]]
                    == ev[j] by {
                    if j < i {
                        if old_place[j] < pos {
                            assert(nv[old_place[j]] == lv[old_place[j]]);
                        } else {
                            assert(nv[old_place[j] + 1] == lv[old_place[j]]);
                        }
                    }
                }
                assert forall|k: int, l: int| 0 <= k < l < i + 1 implies recency_before(
                    #[trigger] nv[k],
                    #[trigger] nv[l],
                ) by {
                    if k < pos && l == pos {
                        assert(nv[k] == ev[old_origin[k]]);
                        assert(id_less(ev[old_origin[k]].id, ev[i as int].id));
                    } else if k == pos && l > pos {
                        assert(nv[l] == lv[l - 1]);
                        assert(lv[pos as int].updated_at_epoch_seconds < c.updated_at_epoch_seconds);
                        if l - 1 > pos {
                            assert(recency_before(lv[pos as int], lv[l - 1]));
                        }
                    } else if l < pos {
                        assert(nv[k] == lv[k] && nv[l] == lv[l]);
                    } else if k > pos {
                        assert(nv[k] == lv[k - 1] && nv[l] == lv[l - 1]);
                    } else {
                        assert(nv[k] == lv[k] && nv[l] == lv[l - 1]);
                        assert(recency_before(lv[k], lv[l - 1]));
                    }
                }
            }
            i = i + 1;
        }
        proof {
            let nv = conversations_view(list@);
            assert forall|k: int, l: int| 0 <= k < l < nv.len() implies recency_before(
                #[trigger] nv[k],
                #[trigger] nv[l],
            ) by {}
            assert forall|k: int|
                0 <= k < nv.len() implies self@.contains_key(#[trigger] nv[k].id) && self@[nv[k].id]
                == nv[k] by {
                lemma_map_at(ev, origin[k]);
            }
            assert forall|key: Seq<char>| #[trigger] self@.contains_key(key) implies exists|k: int|
                0 <= k < nv.len() && nv[k].id == key by {
                let j = choose|j: int| 0 <= j < ev.len() && ev[j].id == key;
                assert(nv[place[j]].id == key);
            }
        }
        list
    }

    /// The stored conversations in id order.
    pub fn entries(&self) -> (list: Vec<Conversation>)
        ensures
            ids_ascending(conversations_view(list@)),
            forall|k: int|
                0 <= k < list@.len() ==> self@.contains_key(#[trigger] list@[k]@.id)
                    && self@[list@[k]@.id] == list@[k]@,
            forall|key: Seq<char>|
                #[trigger] self@.contains_key(key) ==> exists|k: int|
                    0 <= k < list@.len() && list@[k]@.id == key,
    {
        proof {
            use_type_invariant(self);
        }
        let ghost ev = conversations_view(self.entries@);
        let mut list: Vec<Conversation> = Vec::new();
        let mut i: usize = 0;
        while i < self.entries.len()
            invariant
                i <= self.entries@.len(),
                ev == conversations_view(self.entries@),
                list@.len() == i,
                forall|k: int| 0 <= k < i ==> (#[trigger] list@[k])@ == ev[k],
            decreases self.entries.len() - i,
        {
            list.push(self.entries[i].duplicate());
            i = i + 1;
        }
        proof {
            assert(conversations_view(list@) =~= ev);
            assert forall|k: int| 0 <= k < list@.len() implies self@.contains_key(
                #[trigger] list@[k]@.id,
            ) && self@[list@[k]@.id] == list@[k]@ by {
                lemma_map_at(ev, k);
            }
            assert forall|key: Seq<char>| #[trigger] self@.contains_key(key) implies exists|k: int|
                0 <= k < list@.len() && list@[k]@.id == key by {
                let j = choose|j: int| 0 <= j < ev.len() && ev[j].id == key;
                assert(list@[j]@.id == key);
            }
        }
        list
    }

    /// Removes the conversation with `id`; whether there was one.
    pub fn delete(&mut self, id: &str) -> (removed: bool)
        ensures
            removed == old(self)@.contains_key(id@),
            final(self)@ == old(self)@.remove(id@),
    {
        proof {
            use_type_invariant(&*self);
        }
        let ghost old_v = conversations_view(self.entries@);
        let (i, found) = self.position(id);
        proof {
            if !found && self@.contains_key(id@) {
                let c = choose|j: int| 0 <= j < old_v.len() && old_v[j].id == id@;
                lemma_id_less_irreflexive(id@);
            }
            if found {
                lemma_map_at(old_v, i as int);
            }
        }
        if !found {
            assert(old(self)@.remove(id@) =~= old(self)@);
            return false;
        }
        let mut entries: Vec<Conversation> = Vec::new();
        std::mem::swap(&mut entries, &mut self.entries);
        entries.remove(i);
        let ghost nv = conversations_view(entries@);
        proof {
            assert(nv =~= old_v.remove(i as int));
            assert forall|a: int, b: int| 0 <= a < b < nv.len() implies id_less(
                #[trigger] nv[a].id,
                #[trigger] nv[b].id,
            ) by {
                if b < i {
                } else if a < i {
                    assert(nv[b] == old_v[b + 1]);
                } else {
                    assert(nv[a] == old_v[a + 1] && nv[b] == old_v[b + 1]);
                }
            }
            assert forall|k: Seq<char>| #[trigger] entries_map(nv).contains_key(k) == (entries_map(
                old_v,
            ).contains_key(k) && k != id@) by {
                if exists|j: int| 0 <= j < nv.len() && nv[j].id == k {
                    let j = choose|j: int| 0 <= j < nv.len() && nv[j].id == k;
                    if j < i {
                        assert(old_v[j].id == k);
                        if k == id@ {
                            lemma_ascending_distinct(old_v, j, i as int);
                        }
                    } else {
                        assert(old_v[j + 1].id == k);
                        if k == id@ {
                            lemma_ascending_distinct(old_v, j + 1, i as int);
                        }
                    }
                }
                if entries_map(old_v).contains_key(k) && k != id@ {
                    let j = choose|j: int| 0 <= j < old_v.len() && old_v[j].id == k;
                    if j < i {
                        assert(nv[j].id == k);
                    } else if j > i {
                        assert(nv[j - 1].id == k);
                    }
                }
            }
            assert forall|k: Seq<char>| #[trigger] entries_map(nv).contains_key(k) implies entries_map(
                nv,
            )[k] == entries_map(old_v)[k] by {
                let j = choose|j: int| 0 <= j < nv.len() && nv[j].id == k;
                lemma_map_at(nv, j);
                if j < i {
                    lemma_map_at(old_v, j);
                } else {
                    lemma_map_at(old_v, j + 1);
                }
            }
            assert(entries_map(nv) =~= entries_map(old_v).remove(id@));
        }
        self.entries = entries;
        true
    }
}

/// `a` is listed before `b` among recent conversations: updated later, or
/// updated at the same second with the smaller id.
pub open spec fn recency_before(a: ConversationView, b: ConversationView) -> bool {
    a.updated_at_epoch_seconds > b.updated_at_epoch_seconds || (a.updated_at_epoch_seconds
        == b.updated_at_epoch_seconds && id_less(a.id, b.id))
}

/// `list` holds exactly the conversations of `store`, each once, most
/// recently updated first and, at the same second, by id.
pub open spec fn is_recency_listing(
    list: Seq<ConversationView>,
    store: Map<Seq<char>, ConversationView>,
) -> bool {
    &&& forall|k: int, l: int|
        0 <= k < l < list.len() ==> recency_before(#[trigger] list[k], #[trigger] list[l])
    &&& forall|k: int|
        0 <= k < list.len() ==> store.contains_key(#[trigger] list[k].id) && store[list[k].id]
            == list[k]
    &&& forall|key: Seq<char>|
        #[trigger] store.contains_key(key) ==> exists|k: int| 0 <= k < list.len() && list[k].id == key
}

#[verifier::external_type_specification]
#[verifier::external_body]
pub struct ExSystemTime(std::time::SystemTime);

/// `SystemTime::now`: the time of the system clock; nothing is stated of it.
#[verifier::external_body]
fn system_now() -> std::time::SystemTime {
    std::time::SystemTime::now()
}

/// `SystemTime::duration_since(UNIX_EPOCH)`, `None` for a time before the
/// epoch; nothing is stated of the duration.
#[verifier::external_body]
fn since_unix_epoch(t: &std::time::SystemTime) -> Option<core::time::Duration> {
    t.duration_since(std::time::UNIX_EPOCH).ok()
}

/// `Duration::as_secs`; nothing is stated of the value.
#[verifier::external_body]
fn whole_seconds(d: &core::time::Duration) -> u64 {
    d.as_secs()
}

/// The seconds since the Unix epoch, given the clock's reading in whole
/// seconds (`None` for a clock before the epoch, which counts as 0).
pub fn epoch_seconds_or_zero(elapsed: Option<u64>) -> (s: u64)
    ensures
        s == match elapsed {
            Some(v) => v,
            None => 0,
        },
{
    match elapsed {
        Some(v) => v,
        None => 0,
    }
}

/// The current time in whole seconds since the Unix epoch, 0 when the clock
/// reads earlier.
pub fn now_epoch_seconds() -> u64 {
    let now = system_now();
    let elapsed = match since_unix_epoch(&now) {
        Some(d) => Some(whole_seconds(&d)),
        None => None,
    };
    epoch_seconds_or_zero(elapsed)
}

/// A saved conversation is read back as it was saved, and the other
/// stored conversations are unchanged.
pub proof fn law_read_after_save(
    store: Map<Seq<char>, ConversationView>,
    saved: ConversationView,
    other: Seq<char>,
)
    ensures
        store.insert(saved.id, saved).contains_key(saved.id),
        store.insert(saved.id, saved)[saved.id] == saved,
        other != saved.id ==> (store.insert(saved.id, saved).contains_key(other)
            == store.contains_key(other) && store.insert(saved.id, saved)[other] == store[other]),
{
}

/// Deleting a conversation that was just saved reports that it was there,
/// and leaves the store as it was before the save without that id.
pub proof fn law_delete_after_save(store: Map<Seq<char>, ConversationView>, saved: ConversationView)
    ensures
        store.insert(saved.id, saved).contains_key(saved.id),
        store.insert(saved.id, saved).remove(saved.id) == store.remove(saved.id),
{
    assert(store.insert(saved.id, saved).remove(saved.id) =~= store.remove(saved.id));
}

/// A deleted conversation is gone, and deleting it again reports nothing
/// removed.
pub proof fn law_delete_is_final(store: Map<Seq<char>, ConversationView>, id: Seq<char>)
    ensures
        !store.remove(id).contains_key(id),
        store.remove(id).remove(id) == store.remove(id),
{
    assert(store.remove(id).remove(id) =~= store.remove(id));
}

/// Whether `k` is a key once `c` is stored among `entries`.
spec fn has_key_after_insert(
    entries: Seq<ConversationView>,
    c: ConversationView,
    k: Seq<char>,
) -> bool {
    entries_map(entries).insert(c.id, c).contains_key(k)
}

} // verus!
