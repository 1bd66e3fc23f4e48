//! Reconciling the server's subscription acknowledgment with the
//! registered handlers.
//!
//! The acknowledgment maps channel names to the instrument keys actually
//! subscribed.  The session must not silently under-deliver: a ticker
//! channel entry must be present, it must name as many keys as there are
//! registered handlers, and every registered key must appear in it.

use vstd::prelude::*;

use crate::errors::ClientError;
use crate::registry::{HandlerRegistry, TickerHandler};

verus! {

/// The key list of the first entry whose channel name is `name`, if any.
pub open spec fn spec_find_channel(
    subs: Seq<(String, Vec<String>)>,
    name: Seq<char>,
) -> Option<Vec<String>>
    decreases subs.len(),
{
    if subs.len() == 0 {
        None
    } else if subs[0].0@ == name {
        Some(subs[0].1)
    } else {
        spec_find_channel(subs.drop_first(), name)
    }
}

/// The views of a list of keys, in order.
pub open spec fn key_views(l: Seq<String>) -> Seq<Seq<char>> {
    l.map_values(|s: String| s@)
}

/// Whether an acknowledgment matches the registered keys: a ticker channel
/// entry exists, it names exactly as many keys as are registered, and
/// every registered key appears in it.
pub open spec fn subscription_ok(
    subs: Seq<(String, Vec<String>)>,
    keys: Seq<Seq<char>>,
) -> bool {
    match spec_find_channel(subs, "ticker"@) {
        Some(l) => l@.len() == keys.len() && (forall|i: int|
            0 <= i < keys.len() ==> key_views(l@).contains(keys[i])),
        None => false,
    }
}

/// What `spec_find_channel` finds: the first entry with the name, or a
/// proof that no entry has it.
proof fn lemma_find_channel_properties(subs: Seq<(String, Vec<String>)>, name: Seq<char>)
    ensures
        match spec_find_channel(subs, name) {
            Some(l) => exists|i: int|
                0 <= i < subs.len() && subs[i].0@ == name && subs[i].1 == l,
            None => forall|j: int| 0 <= j < subs.len() ==> subs[j].0@ != name,
        },
    decreases subs.len(),
{
    if subs.len() > 0 && subs[0].0@ != name {
        lemma_find_channel_properties(subs.drop_first(), name);
        assert(forall|j: int| 1 <= j < subs.len() ==> subs[j] == subs.drop_first()[j - 1]);
        if spec_find_channel(subs, name) is Some {
            let l = spec_find_channel(subs, name)->Some_0;
            let i = choose|i: int|
                0 <= i < subs.drop_first().len() && subs.drop_first()[i].0@ == name
                    && subs.drop_first()[i].1 == l;
            assert(subs[i + 1].0@ == name && subs[i + 1].1 == l);
        }
    }
}

/// If entry `i` carries the name and no earlier entry does, the search
/// finds exactly entry `i`'s key list.
proof fn lemma_find_channel_at(subs: Seq<(String, Vec<String>)>, name: Seq<char>, i: int)
    requires
        0 <= i < subs.len(),
        subs[i].0@ == name,
        forall|j: int| 0 <= j < i ==> subs[j].0@ != name,
    ensures
        spec_find_channel(subs, name) == Some(subs[i].1),
    decreases i,
{
    if i > 0 {
        assert(forall|j: int| 1 <= j < subs.len() ==> subs[j] == subs.drop_first()[j - 1]);
        lemma_find_channel_at(subs.drop_first(), name, i - 1);
    }
}

/// Whether some key in `l` reads as `key`.
fn list_contains(l: &Vec<String>, key: &String) -> (b: bool)
    ensures
        b == key_views(l@).contains(key@),
{
    let n = l.len();
    let mut i: usize = 0;
    while i < n
        invariant
            n == l@.len(),
            i <= n,
            forall|j: int| 0 <= j < i ==> l@[j]@ != key@,
        decreases n - i,
    {
        if l[i] == *key {
            assert(key_views(l@)[i as int] == key@);
            return true;
        }
        i += 1;
    }
    assert forall|j: int| 0 <= j < key_views(l@).len() implies key_views(l@)[j] != key@ by {
        assert(l@[j]@ != key@);
    }
    false
}

/// Check the acknowledgment `subs` against the handlers registered in
/// `registry`, as `subscription_ok` describes.  Any mismatch is fatal:
/// the server's view of the subscriptions diverges from the caller's
/// intent.
pub fn verify_subscriptions<H: TickerHandler>(
    subs: &Vec<(String, Vec<String>)>,
    registry: &HandlerRegistry<H>,
) -> (r: Result<(), ClientError>)
    ensures
        r is Ok <==> subscription_ok(subs@, registry.spec_keys()),
        r is Err ==> r == Err::<(), ClientError>(ClientError::SubscriptionMismatch),
{
    let ticker_name: String = "ticker".to_owned();
    let n = subs.len();
    let mut i: usize = 0;
    while i < n
        invariant
            n == subs@.len(),
            i <= n,
            ticker_name@ == "ticker"@,
            forall|j: int| 0 <= j < i ==> subs@[j].0@ != "ticker"@,
        decreases n - i,
    {
        if subs[i].0 == ticker_name {
            proof {
                lemma_find_channel_at(subs@, "ticker"@, i as int);
            }
            let l = &subs[i].1;
            if l.len() != registry.len() {
                return Err(ClientError::SubscriptionMismatch);
            }
            let ids = registry.product_ids();
            let m = ids.len();
            let mut k: usize = 0;
            while k < m
                invariant
                    m == ids@.len(),
                    k <= m,
                    ids@.len() == registry.spec_keys().len(),
                    forall|j: int| 0 <= j < ids@.len() ==> ids@[j]@ == registry.spec_keys()[j],
                    spec_find_channel(subs@, "ticker"@) == Some(subs@[i as int].1),
                    l == &subs@[i as int].1,
                    forall|j: int| 0 <= j < k ==> key_views(l@).contains(registry.spec_keys()[j]),
                decreases m - k,
            {
                if !list_contains(l, &ids[k]) {
                    assert(!key_views(l@).contains(registry.spec_keys()[k as int]));
                    return Err(ClientError::SubscriptionMismatch);
                }
                k += 1;
            }
            return Ok(());
        }
        i += 1;
    }
    proof {
        lemma_find_channel_properties(subs@, "ticker"@);
    }
    Err(ClientError::SubscriptionMismatch)
}

/// Law: an acknowledgment whose ticker channel lists exactly the
/// registered keys passes verification.
pub proof fn lemma_subscription_exact(
    subs: Seq<(String, Vec<String>)>,
    keys: Seq<Seq<char>>,
)
    requires
        spec_find_channel(subs, "ticker"@) matches Some(l) && key_views(l@) =~= keys,
    ensures
        subscription_ok(subs, keys),
{
    let l = spec_find_channel(subs, "ticker"@)->Some_0;
    assert forall|i: int| 0 <= i < keys.len() implies key_views(l@).contains(keys[i]) by {
        assert(key_views(l@)[i] == keys[i]);
    }
}

/// Law: an acknowledgment that misses some registered key — or misses the
/// ticker channel altogether — fails verification.
pub proof fn lemma_subscription_missing_key(
    subs: Seq<(String, Vec<String>)>,
    keys: Seq<Seq<char>>,
    k: Seq<char>,
)
    requires
        keys.contains(k),
        match spec_find_channel(subs, "ticker"@) {
            Some(l) => !key_views(l@).contains(k),
            None => true,
        },
    ensures
        !subscription_ok(subs, keys),
{
}

/// Law: an acknowledgment whose ticker channel names more keys than are
/// registered fails verification.
pub proof fn lemma_subscription_extra_key(
    subs: Seq<(String, Vec<String>)>,
    keys: Seq<Seq<char>>,
)
    requires
        spec_find_channel(subs, "ticker"@) matches Some(l) && l@.len() > keys.len(),
    ensures
        !subscription_ok(subs, keys),
{
}

} // verus!
