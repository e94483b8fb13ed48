//! The posts found so far, one per content hash.

use crate::post::GelbooruPost;
use crate::text::{
    compare, lemma_precedes_one_way, lemma_precedes_transitive, lemma_side_of, precedes, Side,
};
use vstd::prelude::*;

verus! {

/// No two posts of `s` have the same content hash.
pub open spec fn distinct_hashes(s: Seq<GelbooruPost>) -> bool {
    forall|i: int, j: int| 0 <= i < j < s.len() ==> s[i].md5@ != s[j].md5@
}

/// The posts of `s` stand in the order of their content hashes, each hash
/// before the next.
pub open spec fn sorted_by_hash(s: Seq<GelbooruPost>) -> bool {
    forall|i: int, j: int| 0 <= i < j < s.len() ==> precedes(s[i].md5@, s[j].md5@)
}

/// Some post of `s` has the content hash `hash`.
pub open spec fn holds_hash(s: Seq<GelbooruPost>, hash: Seq<char>) -> bool {
    exists|i: int| 0 <= i < s.len() && #[trigger] s[i].md5@ == hash
}

/// The posts of `s` by content hash.
pub open spec fn by_hash(s: Seq<GelbooruPost>) -> Map<Seq<char>, GelbooruPost> {
    Map::new(
        |hash: Seq<char>| holds_hash(s, hash),
        |hash: Seq<char>| s[choose|i: int| 0 <= i < s.len() && #[trigger] s[i].md5@ == hash],
    )
}

/// The map `m` once `post` is recorded: it takes the place of any post with
/// the same hash.
pub open spec fn record(m: Map<Seq<char>, GelbooruPost>, post: GelbooruPost) -> Map<
    Seq<char>,
    GelbooruPost,
> {
    m.insert(post.md5@, post)
}

/// The map `m` once the posts of a page are recorded, first to last.
pub open spec fn record_all(m: Map<Seq<char>, GelbooruPost>, posts: Seq<GelbooruPost>) -> Map<
    Seq<char>,
    GelbooruPost,
>
    decreases posts.len(),
{
    if posts.len() == 0 {
        m
    } else {
        record(record_all(m, posts.drop_last()), posts.last())
    }
}

/// With distinct hashes, each post is the one found under its own hash.
pub proof fn lemma_by_hash(s: Seq<GelbooruPost>)
    requires
        distinct_hashes(s),
    ensures
        forall|i: int|
            0 <= i < s.len() ==> by_hash(s).dom().contains(#[trigger] s[i].md5@) && by_hash(
                s,
            )[s[i].md5@] == s[i],
        forall|hash: Seq<char>| by_hash(s).dom().contains(hash) <==> holds_hash(s, hash),
{
    assert forall|i: int| 0 <= i < s.len() implies by_hash(s).dom().contains(
        #[trigger] s[i].md5@,
    ) && by_hash(s)[s[i].md5@] == s[i] by {
        let hash = s[i].md5@;
        assert(holds_hash(s, hash));
        let j = choose|j: int| 0 <= j < s.len() && #[trigger] s[j].md5@ == hash;
        assert(j == i);
    }
}

/// With distinct hashes there are as many hashes as posts.
pub proof fn lemma_by_hash_len(s: Seq<GelbooruPost>)
    requires
        distinct_hashes(s),
    ensures
        by_hash(s).dom().finite(),
        by_hash(s).dom().len() == s.len(),
    decreases s.len(),
{
    if s.len() == 0 {
        assert(by_hash(s).dom() =~= Set::<Seq<char>>::empty());
    } else {
        let t = s.drop_last();
        let hash = s.last().md5@;
        assert forall|i: int, j: int| 0 <= i < j < t.len() implies t[i].md5@ != t[j].md5@ by {
            assert(s[i].md5@ != s[j].md5@);
        }
        lemma_by_hash_len(t);
        assert(!holds_hash(t, hash)) by {
            if holds_hash(t, hash) {
                let i = choose|i: int| 0 <= i < t.len() && #[trigger] t[i].md5@ == hash;
                assert(s[i].md5@ != s[s.len() - 1].md5@);
            }
        }
        assert forall|other: Seq<char>| holds_hash(s, other) <==> (holds_hash(t, other) || other
            == hash) by {
            if holds_hash(s, other) && other != hash {
                let i = choose|i: int| 0 <= i < s.len() && #[trigger] s[i].md5@ == other;
                assert(t[i].md5@ == other);
            }
            if holds_hash(t, other) {
                let i = choose|i: int| 0 <= i < t.len() && #[trigger] t[i].md5@ == other;
                assert(s[i].md5@ == other);
            }
            if other == hash {
                assert(s[s.len() - 1].md5@ == other);
            }
        }
        assert(by_hash(s).dom() =~= by_hash(t).dom().insert(hash));
    }
}

/// After a page is recorded, the map holds what it held before and the
/// page's hashes.
pub proof fn lemma_record_all_dom(m: Map<Seq<char>, GelbooruPost>, posts: Seq<GelbooruPost>)
    ensures
        forall|hash: Seq<char>|
            #![trigger record_all(m, posts).dom().contains(hash)]
            record_all(m, posts).dom().contains(hash) <==> (m.dom().contains(hash) || holds_hash(
                posts,
                hash,
            )),
        forall|hash: Seq<char>|
            #![trigger record_all(m, posts)[hash]]
            m.dom().contains(hash) && !holds_hash(posts, hash) ==> record_all(m, posts)[hash]
                == m[hash],
    decreases posts.len(),
{
    if posts.len() > 0 {
        let t = posts.drop_last();
        let last = posts.last();
        lemma_record_all_dom(m, t);
        assert forall|hash: Seq<char>| holds_hash(posts, hash) <==> (holds_hash(t, hash) || hash
            == last.md5@) by {
            if holds_hash(posts, hash) && hash != last.md5@ {
                let i = choose|i: int| 0 <= i < posts.len() && #[trigger] posts[i].md5@ == hash;
                assert(t[i].md5@ == hash);
            }
            if holds_hash(t, hash) {
                let i = choose|i: int| 0 <= i < t.len() && #[trigger] t[i].md5@ == hash;
                assert(posts[i].md5@ == hash);
            }
            if hash == last.md5@ {
                assert(posts[posts.len() - 1].md5@ == hash);
            }
        }
        assert forall|hash: Seq<char>|
            #![trigger record_all(m, posts).dom().contains(hash)]
            record_all(m, posts).dom().contains(hash) <==> (m.dom().contains(hash) || holds_hash(
                posts,
                hash,
            )) by {
            assert(record_all(m, t).dom().contains(hash) <==> (m.dom().contains(hash)
                || holds_hash(t, hash)));
        }
        assert forall|hash: Seq<char>|
            m.dom().contains(hash) && !holds_hash(posts, hash) implies #[trigger] record_all(
            m,
            posts,
        )[hash] == m[hash] by {
            assert(!holds_hash(t, hash));
            assert(hash != last.md5@);
            assert(record_all(m, t)[hash] == m[hash]);
        }
    }
}

/// Of the posts of a page that share a hash, the last one is the one found
/// under that hash afterwards, whatever was recorded before.
pub proof fn lemma_record_all_last(
    m: Map<Seq<char>, GelbooruPost>,
    posts: Seq<GelbooruPost>,
    j: int,
)
    requires
        0 <= j < posts.len(),
        forall|k: int| j < k < posts.len() ==> posts[k].md5@ != posts[j].md5@,
    ensures
        record_all(m, posts).dom().contains(posts[j].md5@),
        record_all(m, posts)[posts[j].md5@] == posts[j],
    decreases posts.len(),
{
    if j < posts.len() - 1 {
        let t = posts.drop_last();
        assert(t[j] == posts[j]);
        assert forall|k: int| j < k < t.len() implies t[k].md5@ != t[j].md5@ by {
            assert(posts[k].md5@ != posts[j].md5@);
        }
        lemma_record_all_last(m, t, j);
        assert(posts[posts.len() - 1].md5@ != posts[j].md5@);
    }
}

/// Where two pages both hold a post with some hash, one post is found under
/// that hash after both are recorded: the last such post of the later page.
pub proof fn lemma_later_page_wins(
    m: Map<Seq<char>, GelbooruPost>,
    earlier: Seq<GelbooruPost>,
    later: Seq<GelbooruPost>,
    i: int,
    j: int,
)
    requires
        0 <= i < earlier.len(),
        0 <= j < later.len(),
        earlier[i].md5@ == later[j].md5@,
        forall|k: int| j < k < later.len() ==> later[k].md5@ != later[j].md5@,
    ensures
        record_all(record_all(m, earlier), later).dom().contains(later[j].md5@),
        record_all(record_all(m, earlier), later)[later[j].md5@] == later[j],
{
    lemma_record_all_last(record_all(m, earlier), later, j);
}

/// Recording a post a second time changes nothing.
pub proof fn lemma_record_twice(m: Map<Seq<char>, GelbooruPost>, post: GelbooruPost)
    ensures
        record(record(m, post), post) == record(m, post),
{
    assert(record(record(m, post), post) =~= record(m, post));
}

/// Posts in the order of their hashes have distinct hashes.
pub proof fn lemma_sorted_is_distinct(s: Seq<GelbooruPost>)
    requires
        sorted_by_hash(s),
    ensures
        distinct_hashes(s),
{
    assert forall|i: int, j: int| 0 <= i < j < s.len() implies s[i].md5@ != s[j].md5@ by {
        lemma_precedes_one_way(s[i].md5@, s[j].md5@);
    }
}

/// Two sequences in the order of their hashes that hold the same posts by
/// hash agree up to any place.
proof fn lemma_same_up_to(a: Seq<GelbooruPost>, b: Seq<GelbooruPost>, i: int)
    requires
        sorted_by_hash(a),
        sorted_by_hash(b),
        by_hash(a) == by_hash(b),
        a.len() == b.len(),
        0 <= i < a.len(),
    ensures
        a[i] == b[i],
    decreases i,
{
    lemma_sorted_is_distinct(a);
    lemma_sorted_is_distinct(b);
    lemma_by_hash(a);
    lemma_by_hash(b);
    assert forall|j: int| 0 <= j < i implies a[j] == b[j] by {
        lemma_same_up_to(a, b, j);
    }
    let ka = a[i].md5@;
    let kb = b[i].md5@;
    assert(by_hash(b).dom().contains(ka));
    assert(holds_hash(b, ka));
    let m = choose|m: int| 0 <= m < b.len() && #[trigger] b[m].md5@ == ka;
    assert(by_hash(a).dom().contains(kb));
    assert(holds_hash(a, kb));
    let n = choose|n: int| 0 <= n < a.len() && #[trigger] a[n].md5@ == kb;
    if m < i {
        assert(a[m] == b[m]);
        assert(a[m].md5@ != a[i].md5@);
    }
    if n < i {
        assert(a[n] == b[n]);
        assert(b[n].md5@ != b[i].md5@);
    }
    if m > i {
        assert(precedes(b[i].md5@, b[m].md5@));
        if n > i {
            assert(precedes(a[i].md5@, a[n].md5@));
            lemma_precedes_one_way(ka, kb);
        } else {
            lemma_precedes_one_way(ka, ka);
        }
    }
    assert(m == i);
    assert(by_hash(a)[ka] == a[i]);
    assert(by_hash(b)[b[m].md5@] == b[m]);
}

/// The posts by hash fix their sequence in the order of the hashes: two
/// such sequences that hold the same posts by hash are equal.
pub proof fn lemma_sorted_entries_unique(a: Seq<GelbooruPost>, b: Seq<GelbooruPost>)
    requires
        sorted_by_hash(a),
        sorted_by_hash(b),
        by_hash(a) == by_hash(b),
    ensures
        a == b,
{
    lemma_sorted_is_distinct(a);
    lemma_sorted_is_distinct(b);
    lemma_by_hash_len(a);
    lemma_by_hash_len(b);
    assert forall|i: int| 0 <= i < a.len() implies a[i] == b[i] by {
        lemma_same_up_to(a, b, i);
    }
    assert(a =~= b);
}

/// Putting a post in the place of one with the same hash records it.
pub proof fn lemma_by_hash_replace(before: Seq<GelbooruPost>, at: int, post: GelbooruPost)
    requires
        distinct_hashes(before),
        0 <= at < before.len(),
        before[at].md5@ == post.md5@,
    ensures
        distinct_hashes(before.update(at, post)),
        by_hash(before.update(at, post)) == record(by_hash(before), post),
{
    let after = before.update(at, post);
    assert forall|i: int, j: int| 0 <= i < j < after.len() implies after[i].md5@
        != after[j].md5@ by {
        assert(before[i].md5@ != before[j].md5@);
    }
    lemma_by_hash(before);
    lemma_by_hash(after);
    assert forall|hash: Seq<char>| holds_hash(after, hash) <==> (holds_hash(before, hash) || hash
        == post.md5@) by {
        if holds_hash(after, hash) {
            let j = choose|j: int| 0 <= j < after.len() && #[trigger] after[j].md5@ == hash;
            assert(before[j].md5@ == hash);
        }
        if holds_hash(before, hash) {
            let j = choose|j: int| 0 <= j < before.len() && #[trigger] before[j].md5@ == hash;
            assert(after[j].md5@ == hash);
        }
        if hash == post.md5@ {
            assert(after[at].md5@ == hash);
        }
    }
    assert forall|hash: Seq<char>|
        holds_hash(before, hash) && hash != post.md5@ implies by_hash(after)[hash] == by_hash(
        before,
    )[hash] by {
        let j = choose|j: int| 0 <= j < before.len() && #[trigger] before[j].md5@ == hash;
        assert(after[j] == before[j]);
        assert(by_hash(after)[after[j].md5@] == after[j]);
        assert(by_hash(before)[before[j].md5@] == before[j]);
    }
    assert(by_hash(after)[after[at].md5@] == after[at]);
    assert(by_hash(after) =~= record(by_hash(before), post));
}

/// Putting a post with a new hash between the others records it.
pub proof fn lemma_by_hash_insert(before: Seq<GelbooruPost>, at: int, post: GelbooruPost)
    requires
        distinct_hashes(before),
        0 <= at <= before.len(),
        !holds_hash(before, post.md5@),
    ensures
        distinct_hashes(before.insert(at, post)),
        by_hash(before.insert(at, post)) == record(by_hash(before), post),
{
    let after = before.insert(at, post);
    before.insert_ensures(at, post);
    assert forall|j: int| 0 <= j < before.len() implies (#[trigger] before[j]).md5@
        != post.md5@ by {
        if before[j].md5@ == post.md5@ {
            assert(holds_hash(before, post.md5@));
        }
    }
    assert forall|j: int| 0 <= j < after.len() && j != at implies (#[trigger] after[j])
        == before[if j < at {
        j
    } else {
        j - 1
    }] by {
        if j > at {
            assert(after[(j - 1) + 1] == before[j - 1]);
        }
    }
    assert forall|i: int, j: int| 0 <= i < j < after.len() implies after[i].md5@
        != after[j].md5@ by {
        let p = if i < at {
            i
        } else {
            i - 1
        };
        let q = if j < at {
            j
        } else {
            j - 1
        };
        if i != at && j != at {
            assert(after[i] == before[p]);
            assert(after[j] == before[q]);
            assert(before[p].md5@ != before[q].md5@);
        } else if i == at {
            assert(after[j] == before[q]);
            assert(before[q].md5@ != post.md5@);
        } else {
            assert(after[i] == before[p]);
            assert(before[p].md5@ != post.md5@);
        }
    }
    lemma_by_hash(before);
    lemma_by_hash(after);
    assert forall|hash: Seq<char>| holds_hash(after, hash) <==> (holds_hash(before, hash) || hash
        == post.md5@) by {
        if holds_hash(after, hash) && hash != post.md5@ {
            let j = choose|j: int| 0 <= j < after.len() && #[trigger] after[j].md5@ == hash;
            let q = if j < at {
                j
            } else {
                j - 1
            };
            assert(after[j] == before[q]);
            assert(before[q].md5@ == hash);
        }
        if holds_hash(before, hash) {
            let j = choose|j: int| 0 <= j < before.len() && #[trigger] before[j].md5@ == hash;
            let q = if j < at {
                j
            } else {
                j + 1
            };
            assert(after[q] == before[j]);
            assert(after[q].md5@ == hash);
        }
        if hash == post.md5@ {
            assert(after[at].md5@ == hash);
        }
    }
    assert forall|hash: Seq<char>|
        holds_hash(before, hash) && hash != post.md5@ implies by_hash(after)[hash] == by_hash(
        before,
    )[hash] by {
        let j = choose|j: int| 0 <= j < before.len() && #[trigger] before[j].md5@ == hash;
        let q = if j < at {
            j
        } else {
            j + 1
        };
        assert(after[q] == before[j]);
        assert(by_hash(after)[after[q].md5@] == after[q]);
        assert(by_hash(before)[before[j].md5@] == before[j]);
    }
    assert(by_hash(after)[after[at].md5@] == after[at]);
    assert(by_hash(after) =~= record(by_hash(before), post));
}

/// The posts recorded so far, in the order of their hashes. Recording a post
/// whose hash is already there replaces the earlier one.
pub struct AggregateStore {
    entries: Vec<GelbooruPost>,
}

impl View for AggregateStore {
    type V = Map<Seq<char>, GelbooruPost>;

    closed spec fn view(&self) -> Map<Seq<char>, GelbooruPost> {
        by_hash(self.entries@)
    }
}

impl AggregateStore {
    /// The stored posts stand in the order of their hashes.
    #[verifier::type_invariant]
    spec fn sorted(self) -> bool {
        sorted_by_hash(self.entries@)
    }

    /// A store without posts.
    pub fn new() -> (store: Self)
        ensures
            store@ == Map::<Seq<char>, GelbooruPost>::empty(),
    {
        let store = AggregateStore { entries: Vec::new() };
        assert(store@ =~= Map::<Seq<char>, GelbooruPost>::empty());
        store
    }

    /// The place of the first stored post whose hash does not come before
    /// `hash`.
    fn lower_bound(&self, hash: &String) -> (at: usize)
        ensures
            at <= self.entries@.len(),
            forall|i: int| 0 <= i < at ==> precedes((#[trigger] self.entries@[i]).md5@, hash@),
            forall|i: int|
                at <= i < self.entries@.len() ==> !precedes(
                    (#[trigger] self.entries@[i]).md5@,
                    hash@,
                ),
    {
        proof {
            use_type_invariant(self);
        }
        let mut lo: usize = 0;
        let mut hi: usize = self.entries.len();
        while lo < hi
            invariant
                sorted_by_hash(self.entries@),
                lo <= hi <= self.entries@.len(),
                forall|i: int| 0 <= i < lo ==> precedes((#[trigger] self.entries@[i]).md5@, hash@),
                forall|i: int|
                    hi <= i < self.entries@.len() ==> !precedes(
                        (#[trigger] self.entries@[i]).md5@,
                        hash@,
                    ),
            decreases hi - lo,
        {
            let mid = lo + (hi - lo) / 2;
            let ghost middle = self.entries@[mid as int].md5@;
            proof {
                lemma_side_of(middle, hash@);
            }
            match compare(self.entries[mid].md5.as_str(), hash.as_str()) {
                Side::Before => {
                    assert forall|i: int| 0 <= i < mid + 1 implies precedes(
                        (#[trigger] self.entries@[i]).md5@,
                        hash@,
                    ) by {
                        if i < mid {
                            lemma_precedes_transitive(self.entries@[i].md5@, middle, hash@);
                        }
                    }
                    lo = mid + 1;
                },
                _ => {
                    assert forall|i: int| mid <= i < self.entries@.len() implies !precedes(
                        (#[trigger] self.entries@[i]).md5@,
                        hash@,
                    ) by {
                        if i > mid && precedes(self.entries@[i].md5@, hash@) {
                            lemma_precedes_transitive(middle, self.entries@[i].md5@, hash@);
                        }
                    }
                    hi = mid;
                },
            }
        }
        lo
    }

    /// Whether the post at `at`, the lower bound of `hash`, has that hash.
    fn found_at(&self, at: usize, hash: &String) -> (found: bool)
        requires
            at <= self.entries@.len(),
            forall|i: int| 0 <= i < at ==> precedes((#[trigger] self.entries@[i]).md5@, hash@),
            forall|i: int|
                at <= i < self.entries@.len() ==> !precedes(
                    (#[trigger] self.entries@[i]).md5@,
                    hash@,
                ),
        ensures
            found ==> at < self.entries@.len() && self.entries@[at as int].md5@ == hash@,
            !found ==> !holds_hash(self.entries@, hash@),
            !found ==> forall|i: int|
                at <= i < self.entries@.len() ==> precedes(
                    hash@,
                    (#[trigger] self.entries@[i]).md5@,
                ),
    {
        proof {
            use_type_invariant(self);
        }
        if at >= self.entries.len() {
            proof {
                assert forall|i: int| 0 <= i < self.entries@.len() implies (
                #[trigger] self.entries@[i]).md5@ != hash@ by {
                    lemma_precedes_one_way(self.entries@[i].md5@, hash@);
                }
            }
            return false;
        }
        let ghost here = self.entries@[at as int].md5@;
        proof {
            lemma_side_of(here, hash@);
        }
        match compare(self.entries[at].md5.as_str(), hash.as_str()) {
            Side::Same => true,
            _ => {
                proof {
                    assert(precedes(hash@, here));
                    assert forall|i: int| at <= i < self.entries@.len() implies precedes(
                        hash@,
                        (#[trigger] self.entries@[i]).md5@,
                    ) by {
                        if i > at {
                            lemma_precedes_transitive(hash@, here, self.entries@[i].md5@);
                        }
                    }
                    assert forall|i: int| 0 <= i < self.entries@.len() implies (
                    #[trigger] self.entries@[i]).md5@ != hash@ by {
                        lemma_precedes_one_way(self.entries@[i].md5@, hash@);
                        lemma_precedes_one_way(hash@, self.entries@[i].md5@);
                    }
                }
                false
            },
        }
    }

    /// The post stored under `hash`, if there is one.
    pub fn get(&self, hash: &String) -> (found: Option<&GelbooruPost>)
        ensures
            match found {
                Some(post) => self@.dom().contains(hash@) && self@[hash@] == *post,
                None => !self@.dom().contains(hash@),
            },
    {
        proof {
            use_type_invariant(self);
            lemma_sorted_is_distinct(self.entries@);
            lemma_by_hash(self.entries@);
        }
        let at = self.lower_bound(hash);
        if self.found_at(at, hash) {
            Some(&self.entries[at])
        } else {
            None
        }
    }

    /// How many posts are stored: one for each hash.
    pub fn len(&self) -> (n: usize)
        ensures
            self@.dom().finite(),
            n == self@.dom().len(),
    {
        proof {
            use_type_invariant(self);
            lemma_sorted_is_distinct(self.entries@);
            lemma_by_hash_len(self.entries@);
        }
        self.entries.len()
    }

    /// Records one post under its hash.
    pub fn insert(&mut self, post: &GelbooruPost)
        ensures
            final(self)@ == record(old(self)@, *post),
    {
        let copy = post.clone();
        let at = self.lower_bound(&post.md5);
        let found = self.found_at(at, &post.md5);
        let mut taken = AggregateStore::new();
        std::mem::swap(self, &mut taken);
        proof {
            use_type_invariant(&taken);
        }
        let AggregateStore { mut entries } = taken;
        let ghost before = entries@;
        proof {
            lemma_sorted_is_distinct(before);
        }
        if found {
            entries.set(at, copy);
            proof {
                lemma_by_hash_replace(before, at as int, *post);
                assert forall|i: int, j: int| 0 <= i < j < entries@.len() implies precedes(
                    entries@[i].md5@,
                    entries@[j].md5@,
                ) by {
                    assert(precedes(before[i].md5@, before[j].md5@));
                }
            }
        } else {
            entries.insert(at, copy);
            proof {
                lemma_by_hash_insert(before, at as int, *post);
                before.insert_ensures(at as int, *post);
                let after = entries@;
                assert forall|i: int, j: int| 0 <= i < j < after.len() implies precedes(
                    after[i].md5@,
                    after[j].md5@,
                ) by {
                    let p = if i < at {
                        i
                    } else {
                        i - 1
                    };
                    let q = if j < at {
                        j
                    } else {
                        j - 1
                    };
                    if i > at {
                        assert(after[(i - 1) + 1] == before[i - 1]);
                    }
                    if j > at {
                        assert(after[(j - 1) + 1] == before[j - 1]);
                    }
                    if i != at && j != at {
                        assert(precedes(before[p].md5@, before[q].md5@));
                    } else if i == at {
                        assert(precedes(post.md5@, before[q].md5@));
                    } else {
                        assert(precedes(before[p].md5@, post.md5@));
                    }
                }
            }
        }
        *self = AggregateStore { entries };
    }

    /// Records the posts of a page, first to last.
    pub fn insert_all(&mut self, posts: &[GelbooruPost])
        ensures
            final(self)@ == record_all(old(self)@, posts@),
    {
        let mut i: usize = 0;
        while i < posts.len()
            invariant
                i <= posts@.len(),
                self@ == record_all(old(self)@, posts@.take(i as int)),
            decreases posts@.len() - i,
        {
            assert(posts@.take(i + 1).drop_last() =~= posts@.take(i as int));
            self.insert(&posts[i]);
            i = i + 1;
        }
        assert(posts@.take(posts@.len() as int) =~= posts@);
    }

    /// The stored posts, one for each hash, in the order of their hashes.
    pub fn entries(&self) -> (all: &Vec<GelbooruPost>)
        ensures
            sorted_by_hash(all@),
            by_hash(all@) == self@,
    {
        proof {
            use_type_invariant(self);
        }
        &self.entries
    }

    /// Gives up the store for its posts, one for each hash, in the order of
    /// their hashes.
    pub fn into_entries(self) -> (all: Vec<GelbooruPost>)
        ensures
            sorted_by_hash(all@),
            by_hash(all@) == self@,
    {
        proof {
            use_type_invariant(&self);
        }
        self.entries
    }
}

} // verus!
