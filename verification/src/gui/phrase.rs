//! Recovery phrases: whether one belongs to a database.

use crate::internal::account::{address_views, pool_address, pool_address_of};
use crate::internal::payment::text_result;
use crate::internal::pool::ShieldedPool;
use crate::lex::bytes_equal;
use crate::network::Network;
use crate::text::{is_white_space, lemma_word_first, lower_case, to_lower_case, words, words_of};
use bip0039::{English, Mnemonic};
use vstd::prelude::*;
use vstd::string::*;
use zcash_keys::keys::UnifiedSpendingKey;
use zcash_protocol::consensus;

verus! {

/// The words of a text joined by single spaces.
pub open spec fn spaced(w: Seq<Seq<char>>) -> Seq<char>
    decreases w.len(),
{
    if w.len() == 0 {
        Seq::empty()
    } else if w.len() == 1 {
        w[0]
    } else {
        spaced(w.drop_last()) + " "@ + w.last()
    }
}

/// A phrase as it is read: in lower case, with single spaces between its words.
pub open spec fn normal_phrase(lower: Seq<char>) -> Seq<char> {
    spaced(words(lower))
}

/// A phrase that is in lower case, with single spaces between its words.
pub fn single_spaced(lower: &str) -> (r: String)
    ensures
        r@ == normal_phrase(lower@),
{
    let w = words_of(lower);
    let ghost all = crate::text::texts(w@);
    let mut r = String::new();
    let mut i: usize = 0;
    while i < w.len()
        invariant
            i <= w.len(),
            all == crate::text::texts(w@),
            r@ == spaced(all.take(i as int)),
        decreases w.len() - i,
    {
        if i > 0 {
            r.append(" ");
        }
        r.append(w[i].as_str());
        proof {
            assert(all.take(i + 1).drop_last() =~= all.take(i as int));
            assert(all.take(i + 1).last() == w@[i as int]@);
            if i == 0 {
                assert(r@ =~= all.take(1)[0]);
            }
        }
        i += 1;
    }
    assert(all.take(i as int) =~= all);
    r
}

/// The seed of a recovery phrase, or why it is none.
pub uninterp spec fn seed_of(phrase: Seq<char>) -> Result<Seq<u8>, Seq<char>>;

/// `Mnemonic::<English>::from_phrase`, and `to_seed` without a passphrase: the 64
/// bytes of the seed, or the text of the error.
#[verifier::external_body]
fn phrase_seed(phrase: &str) -> (r: Result<Vec<u8>, String>)
    ensures
        match r {
            Ok(s) => seed_of(phrase@) == Ok::<Seq<u8>, Seq<char>>(s@) && s@.len() == 64,
            Err(e) => seed_of(phrase@) == Err::<Seq<u8>, Seq<char>>(e@),
        },
{
    Mnemonic::<English>::from_phrase(phrase).map(|m| m.to_seed("").to_vec()).map_err(
        |e| e.to_string(),
    )
}

/// The encoded viewing key of the first account of a seed, on the main network or
/// on a test network, or why there is none.
pub uninterp spec fn viewing_key_of(seed: Seq<u8>, main: bool) -> Result<Seq<char>, Seq<char>>;

/// `UnifiedSpendingKey::from_seed` for the first account, and `encode` of its full
/// viewing key: the text of the key, or the text of the error.
#[verifier::external_body]
fn viewing_key(seed: &[u8], main: bool) -> (r: Result<String, String>)
    requires
        32 <= seed@.len() <= 252,
    ensures
        text_result(r) == viewing_key_of(seed@, main),
{
    let net = [consensus::Network::TestNetwork, consensus::Network::MainNetwork][main as usize];
    let usk = UnifiedSpendingKey::from_seed(&net, seed, zip32::AccountId::ZERO).map_err(|e| e.to_string())?;
    usk.to_unified_full_viewing_key().encode(&net).map_err(|e| e.to_string())
}

/// Whether two viewing keys lead to the same database, given their addresses in
/// its pool: their raw receivers are the same.
pub open spec fn same_database(
    want: Result<(Seq<char>, Seq<u8>), Seq<char>>,
    got: Result<(Seq<char>, Seq<u8>), Seq<char>>,
) -> Result<bool, Seq<char>> {
    match want {
        Err(e) => Err(e),
        Ok(w) => match got {
            Err(e) => Err(e),
            Ok(g) => Ok(w.1 == g.1),
        },
    }
}

/// Whether two viewing keys lead to the same database, given their addresses in
/// its pool.
pub fn same_identity(want: Result<(String, Vec<u8>), String>, got: Result<(String, Vec<u8>), String>) -> (r:
    Result<bool, String>)
    ensures
        verdict_model(r) == same_database(address_views(want), address_views(got)),
{
    match want {
        Err(e) => Err(e),
        Ok(w) => match got {
            Err(e) => Err(e),
            Ok(g) => Ok(bytes_equal(w.1.as_slice(), g.1.as_slice())),
        },
    }
}

/// Whether a phrase is the one of the database with the viewing key `ufvk`, in a
/// pool of a network, or what is wrong with it.
pub open spec fn phrase_verdict(
    phrase: Seq<char>,
    network: Network,
    pool: ShieldedPool,
    ufvk: Seq<char>,
) -> Result<bool, Seq<char>> {
    match seed_of(normal_phrase(lower_case(phrase))) {
        Err(e) => Err("invalid recovery phrase: "@ + e),
        Ok(seed) => match viewing_key_of(seed, network is Main) {
            Err(e) => Err("derive key from phrase: "@ + e),
            Ok(key) => same_database(
                pool_address_of(ufvk, network, pool),
                pool_address_of(key, network, pool),
            ),
        },
    }
}

/// The views of a verdict.
pub open spec fn verdict_model(r: Result<bool, String>) -> Result<bool, Seq<char>> {
    match r {
        Ok(b) => Ok(b),
        Err(e) => Err(e@),
    }
}

fn prefixed(prefix: &str, e: &str) -> (r: String)
    ensures
        r@ == prefix@ + e@,
{
    let mut r = String::new();
    r.append(prefix);
    r.append(e);
    assert(r@ =~= prefix@ + e@);
    r
}

/// Whether a recovery phrase controls the database with the viewing key `ufvk`:
/// the same seed leads to the same receiver in the database's pool. Test networks
/// share their keys.
pub fn verify_phrase(phrase: &str, network: Network, pool: ShieldedPool, ufvk: &str) -> (r: Result<
    bool,
    String,
>)
    ensures
        verdict_model(r) == phrase_verdict(phrase@, network, pool, ufvk@),
{
    let normalized = single_spaced(to_lower_case(phrase).as_str());
    let seed = match phrase_seed(normalized.as_str()) {
        Ok(s) => s,
        Err(e) => {
            return Err(prefixed("invalid recovery phrase: ", e.as_str()));
        },
    };
    let key = match viewing_key(seed.as_slice(), matches!(network, Network::Main)) {
        Ok(k) => k,
        Err(e) => {
            return Err(prefixed("derive key from phrase: ", e.as_str()));
        },
    };
    same_identity(pool_address(ufvk, network, pool), pool_address(key.as_str(), network, pool))
}

/// A phrase is that of the database exactly where both lead to one receiver, whatever
/// the texts of their addresses; a fault of either is no verdict.
pub proof fn the_receiver_tells_a_database(
    a: (Seq<char>, Seq<u8>),
    b: (Seq<char>, Seq<u8>),
    e: Seq<char>,
)
    ensures
        same_database(Ok(a), Ok(b)) == Ok::<bool, Seq<char>>(a.1 == b.1),
        same_database(Ok(a), Ok(a)) == Ok::<bool, Seq<char>>(true),
        same_database(Err(e), Ok(b)) is Err,
        same_database(Ok(a), Err(e)) is Err,
{
}

/// Words that are joined by single spaces are read back as those words, so that
/// spacing never changes a phrase.
pub proof fn spacing_never_changes_a_phrase(w: Seq<Seq<char>>, space: char)
    requires
        is_white_space(space),
        forall|i: int| 0 <= i < w.len() ==> (#[trigger] w[i]).len() > 0,
        forall|i: int, j: int|
            0 <= i < w.len() && 0 <= j < w[i].len() ==> !is_white_space(#[trigger] w[i][j]),
    ensures
        words(spaced(w)) == w,
        normal_phrase(spaced(w)) == spaced(w),
        normal_phrase(seq![space] + spaced(w)) == spaced(w),
        normal_phrase(spaced(w).push(space)) == spaced(w),
{
    reveal_strlit(" ");
    lemma_words_spaced(w, Seq::empty());
    lemma_words_spaced(w, seq![space]);
    assert(spaced(w) + Seq::<char>::empty() =~= spaced(w));
    assert(spaced(w).push(space) =~= spaced(w) + seq![space]);
    assert(w + words(Seq::<char>::empty()) =~= w);
    assert(seq![space].drop_first() =~= Seq::<char>::empty());
    assert(words(seq![space]) == words(seq![space].drop_first()));
    assert(w + words(seq![space]) =~= w);
    let s = seq![space] + spaced(w);
    assert(s.drop_first() =~= spaced(w));
    assert(words(s) == words(s.drop_first()));
}

/// The words of joined words with something behind them that starts a new word or is
/// nothing at all.
proof fn lemma_words_spaced(w: Seq<Seq<char>>, rest: Seq<char>)
    requires
        rest.len() == 0 || is_white_space(rest[0]),
        forall|i: int| 0 <= i < w.len() ==> (#[trigger] w[i]).len() > 0,
        forall|i: int, j: int|
            0 <= i < w.len() && 0 <= j < w[i].len() ==> !is_white_space(#[trigger] w[i][j]),
    ensures
        words(spaced(w) + rest) == w + words(rest),
    decreases w.len(),
{
    reveal_strlit(" ");
    if w.len() == 0 {
        assert(spaced(w) + rest =~= rest);
        assert(w + words(rest) =~= words(rest));
    } else {
        let last = w.last();
        assert(last == w[w.len() - 1]);
        let tail = last + rest;
        assert forall|i: int| 0 <= i < last.len() implies !is_white_space(#[trigger] tail[i]) by {
            assert(!is_white_space(w[w.len() - 1][i]));
        }
        lemma_word_first(last, rest);
        if w.len() == 1 {
            assert(spaced(w) + rest =~= tail);
            assert(w + words(rest) =~= seq![last] + words(rest));
        } else {
            let front = w.drop_last();
            let back = " "@ + tail;
            assert(back[0] == ' ');
            assert forall|i: int, j: int|
                0 <= i < front.len() && 0 <= j < front[i].len() implies !is_white_space(
                #[trigger] front[i][j],
            ) by {
                assert(!is_white_space(w[i][j]));
            }
            lemma_words_spaced(front, back);
            assert(spaced(w) + rest =~= spaced(front) + back);
            assert(back.drop_first() =~= tail);
            assert(words(back) == words(tail));
            assert(front + (seq![last] + words(rest)) =~= w + words(rest));
        }
    }
}

/// The phrase of a database is recognised: where a phrase leads to a viewing key with
/// an address in the pool, it is the phrase of the database of that key, and of
/// another exactly where both have one receiver. What is no phrase is none of any.
pub proof fn the_phrase_of_a_database_is_recognised(
    phrase: Seq<char>,
    network: Network,
    pool: ShieldedPool,
    seed: Seq<u8>,
    key: Seq<char>,
    other: Seq<char>,
)
    ensures
        seed_of(normal_phrase(lower_case(phrase))) is Err ==> phrase_verdict(
            phrase,
            network,
            pool,
            other,
        ) is Err,
        seed_of(normal_phrase(lower_case(phrase))) == Ok::<Seq<u8>, Seq<char>>(seed)
            && viewing_key_of(seed, network is Main) == Ok::<Seq<char>, Seq<char>>(key)
            && pool_address_of(key, network, pool) is Ok ==> {
            &&& phrase_verdict(phrase, network, pool, key) == Ok::<bool, Seq<char>>(true)
            &&& pool_address_of(other, network, pool) is Ok ==> phrase_verdict(
                phrase,
                network,
                pool,
                other,
            ) == Ok::<bool, Seq<char>>(
                (pool_address_of(other, network, pool)->Ok_0).1 == (pool_address_of(
                    key,
                    network,
                    pool,
                )->Ok_0).1,
            )
            &&& pool_address_of(other, network, pool) is Err ==> phrase_verdict(
                phrase,
                network,
                pool,
                other,
            ) is Err
        },
{
}

} // verus!
