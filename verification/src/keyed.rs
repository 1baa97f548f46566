//! Records that are told apart by a text key, and the search for one of them.
use vstd::prelude::*;

verus! {

/// The model of a record that is known by a key among others of its kind.
pub trait Keyed: Sized {
    /// The key of the record.
    spec fn key(self) -> Seq<char>;
}

/// A record whose model has a key.
pub trait Record: View + Sized where <Self as View>::V: Keyed {
    /// The key of this record.
    fn key_text(&self) -> (r: &String)
        ensures
            r@ == self@.key(),
    ;
}

/// The models of `items`, in order.
pub open spec fn views<T: View>(items: Seq<T>) -> Seq<T::V> {
    Seq::new(items.len(), |i: int| items[i]@)
}

/// The position of the first item under `key`.
pub open spec fn find_key<T: Keyed>(items: Seq<T>, key: Seq<char>) -> Option<int>
    decreases items.len(),
{
    if items.len() == 0 {
        None
    } else {
        match find_key(items.drop_last(), key) {
            Some(i) => Some(i),
            None => if items.last().key() == key {
                Some(items.len() - 1)
            } else {
                None
            },
        }
    }
}

/// The first item under `key`.
pub open spec fn lookup<T: Keyed>(items: Seq<T>, key: Seq<char>) -> Option<T> {
    match find_key(items, key) {
        Some(i) => Some(items[i]),
        None => None,
    }
}

/// Whether some item is under `key`.
pub open spec fn has_key<T: Keyed>(items: Seq<T>, key: Seq<char>) -> bool {
    find_key(items, key) is Some
}

/// No two items share a key.
pub open spec fn distinct_keys<T: Keyed>(items: Seq<T>) -> bool {
    forall|i: int, j: int|
        0 <= i < j < items.len() ==> (#[trigger] items[i]).key() != (#[trigger] items[j]).key()
}

/// `find_key` gives the first position that holds the key, if there is one.
pub broadcast proof fn lemma_find_key<T: Keyed>(items: Seq<T>, key: Seq<char>)
    ensures
        match #[trigger] find_key(items, key) {
            Some(i) => {
                &&& 0 <= i < items.len()
                &&& items[i].key() == key
                &&& forall|j: int| 0 <= j < i ==> (#[trigger] items[j]).key() != key
            },
            None => forall|j: int| 0 <= j < items.len() ==> (#[trigger] items[j]).key() != key,
        },
    decreases items.len(),
{
    if items.len() > 0 {
        lemma_find_key(items.drop_last(), key);
        let front = items.drop_last();
        assert(forall|j: int| 0 <= j < front.len() ==> front[j] == items[j]);
        match find_key(front, key) {
            Some(i) => {
                assert(items[i].key() == key);
            },
            None => {
                assert forall|j: int| 0 <= j < items.len() - 1 implies (
                #[trigger] items[j]).key() != key by {
                    assert(front[j].key() != key);
                }
            },
        }
    }
}

/// The first position that holds the key is what `find_key` gives.
pub proof fn lemma_find_key_is<T: Keyed>(items: Seq<T>, key: Seq<char>, i: int)
    requires
        0 <= i < items.len(),
        items[i].key() == key,
        forall|j: int| 0 <= j < i ==> (#[trigger] items[j]).key() != key,
    ensures
        find_key(items, key) == Some(i),
{
    lemma_find_key(items, key);
    match find_key(items, key) {
        Some(k) => {
            if k < i {
                assert(items[k].key() == key);
            }
        },
        None => {
            assert(items[i].key() != key);
        },
    }
}

/// Where keys are distinct, every item is found under its own key.
pub proof fn lemma_find_own_key<T: Keyed>(items: Seq<T>, i: int)
    requires
        distinct_keys(items),
        0 <= i < items.len(),
    ensures
        find_key(items, items[i].key()) == Some(i),
{
    lemma_find_key_is(items, items[i].key(), i);
}

/// Adding an item at the end changes the search for its own key alone.
pub proof fn lemma_find_key_push<T: Keyed>(items: Seq<T>, item: T, key: Seq<char>)
    ensures
        find_key(items.push(item), key) == match find_key(items, key) {
            Some(i) => Some(i),
            None => if item.key() == key {
                Some(items.len() as int)
            } else {
                None
            },
        },
{
    assert(items.push(item).drop_last() =~= items);
}

/// Replacing an item by one under the same key leaves every search as it was.
pub proof fn lemma_find_key_update<T: Keyed>(items: Seq<T>, at: int, item: T, key: Seq<char>)
    requires
        0 <= at < items.len(),
        item.key() == items[at].key(),
    ensures
        find_key(items.update(at, item), key) == find_key(items, key),
{
    let changed = items.update(at, item);
    lemma_find_key(items, key);
    lemma_find_key(changed, key);
    assert(forall|j: int| 0 <= j < items.len() ==> (#[trigger] changed[j]).key() == items[j].key());
    match find_key(items, key) {
        Some(i) => {
            assert(changed[i].key() == key);
            lemma_find_key_is(changed, key, i);
        },
        None => {},
    }
}

/// What a filter gives stood in the list.
pub proof fn lemma_filter_origin<T>(items: Seq<T>, wanted: spec_fn(T) -> bool, a: int)
    requires
        0 <= a < items.filter(wanted).len(),
    ensures
        items.contains(items.filter(wanted)[a]),
        wanted(items.filter(wanted)[a]),
    decreases items.len(),
{
    reveal(Seq::filter);
    let front = items.drop_last();
    if a < front.filter(wanted).len() {
        lemma_filter_origin(front, wanted, a);
        let k = front.index_of(front.filter(wanted)[a]);
        assert(items[k] == front[k]);
    } else {
        assert(items[items.len() - 1] == items.filter(wanted)[a]);
    }
}

/// The position of the first record under `key` among the first `n`.
pub fn find_record_before<T: Record>(items: &Vec<T>, n: usize, key: &String) -> (r: Option<
    usize,
>) where <T as View>::V: Keyed
    requires
        n <= items@.len(),
    ensures
        match r {
            Some(i) => i < n && find_key(views(items@).take(n as int), key@) == Some(i as int),
            None => find_key(views(items@).take(n as int), key@) is None,
        },
{
    broadcast use lemma_find_key;

    let ghost front = views(items@).take(n as int);
    let mut i: usize = 0;
    while i < n
        invariant
            i <= n <= items@.len(),
            front == views(items@).take(n as int),
            forall|j: int| 0 <= j < i ==> (#[trigger] front[j]).key() != key@,
        decreases n - i,
    {
        if *items[i].key_text() == *key {
            proof {
                assert(front[i as int].key() == key@);
                lemma_find_key_is(front, key@, i as int);
            }
            return Some(i);
        }
        i = i + 1;
    }
    None
}

/// The position of the first record under `key`.
pub fn find_record<T: Record>(items: &Vec<T>, key: &String) -> (r: Option<usize>) where
    <T as View>::V: Keyed,

    ensures
        match r {
            Some(i) => i < items@.len() && find_key(views(items@), key@) == Some(i as int),
            None => find_key(views(items@), key@) is None,
        },
{
    assert(views(items@).take(items@.len() as int) =~= views(items@));
    find_record_before(items, items.len(), key)
}

} // verus!
