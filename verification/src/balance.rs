use vstd::prelude::*;

verus! {

/// An amount of one native token.
#[derive(Clone, Debug)]
pub struct Coin {
    pub denom: String,
    pub amount: u128,
}

/// A list of native token amounts.
#[derive(Clone, Debug)]
pub struct NativeBalance(pub Vec<Coin>);

/// An amount of a cw20 token, held at a validated contract address.
#[derive(Clone, Debug)]
pub struct Cw20CoinVerified {
    pub address: String,
    pub amount: u128,
}

/// A balance of native tokens or of one cw20 token.
#[derive(Clone, Debug)]
pub enum Balance {
    Native(NativeBalance),
    Cw20(Cw20CoinVerified),
}

/// `i` is the first position in `coins` that holds the denomination `denom`.
pub open spec fn first_of_denom(coins: Seq<Coin>, i: int, denom: Seq<char>) -> bool {
    &&& 0 <= i < coins.len()
    &&& coins[i].denom@ == denom
    &&& forall|j: int| 0 <= j < i ==> coins[j].denom@ != denom
}

/// The first coin in `coins` of the required denomination holds at least the
/// required amount.
pub open spec fn covers_coin(coins: Seq<Coin>, required: Coin) -> bool {
    exists|i: int| first_of_denom(coins, i, required.denom@) && coins[i].amount >= required.amount
}

/// Every coin of `expected` is covered by `current`.
pub open spec fn covers_all(current: Seq<Coin>, expected: Seq<Coin>) -> bool {
    forall|k: int| 0 <= k < expected.len() ==> #[trigger] covers_coin(current, expected[k])
}

/// `balance` meets `required`: both are native and every required coin is
/// covered, or both are of the same cw20 token and the amount suffices.
pub open spec fn meets_balance(balance: Balance, required: Balance) -> bool {
    match (balance, required) {
        (Balance::Native(current), Balance::Native(expected)) => covers_all(current.0@, expected.0@),
        (Balance::Cw20(current), Balance::Cw20(expected)) => {
            &&& current.address@ == expected.address@
            &&& current.amount >= expected.amount
        },
        _ => false,
    }
}

/// Whether the first coin of the required denomination holds at least the
/// required amount; `false` when no coin has that denomination.
pub fn has_coins(coins: &[Coin], required: &Coin) -> (res: bool)
    ensures
        res == covers_coin(coins@, *required),
{
    let mut i: usize = 0;
    while i < coins.len()
        invariant
            i <= coins@.len(),
            forall|j: int| 0 <= j < i ==> coins@[j].denom@ != required.denom@,
        decreases coins.len() - i,
    {
        if coins[i].denom == required.denom {
            let res = coins[i].amount >= required.amount;
            proof {
                assert(first_of_denom(coins@, i as int, required.denom@));
                if !res {
                    assert forall|k: int| first_of_denom(coins@, k, required.denom@) implies k
                        == i by {
                        if k < i {
                        } else if k > i {
                            assert(coins@[i as int].denom@ != required.denom@);
                        }
                    }
                }
            }
            return res;
        }
        i = i + 1;
    }
    false
}

/// Whether the current balance meets the required one (see `meets_balance`).
pub fn query_has_balance(balance: Balance, required_balance: Balance) -> (res: Result<
    (bool, Option<Vec<u8>>),
    crate::rules::RuleError,
>)
    ensures
        res matches Ok(r) && r.0 == meets_balance(balance, required_balance) && r.1 is None,
{
    let res = match (&balance, &required_balance) {
        (Balance::Native(current), Balance::Native(expected)) => {
            let mut all = true;
            let mut k: usize = 0;
            while k < expected.0.len()
                invariant
                    k <= expected.0@.len(),
                    all == forall|m: int| 0 <= m < k ==> #[trigger] covers_coin(current.0@, expected.0@[m]),
                decreases expected.0.len() - k,
            {
                let c = has_coins(current.0.as_slice(), &expected.0[k]);
                proof {
                    if all && c {
                        assert forall|m: int| 0 <= m < k + 1 implies #[trigger] covers_coin(
                            current.0@,
                            expected.0@[m],
                        ) by {
                            if m == k {
                            }
                        }
                    }
                }
                all = all && c;
                k = k + 1;
            }
            all
        },
        (Balance::Cw20(current_cw20), Balance::Cw20(expected_cw20)) => {
            current_cw20.address == expected_cw20.address && current_cw20.amount
                >= expected_cw20.amount
        },
        _ => false,
    };
    Ok((res, None))
}

// ---------------------------------------------------------------------------
// Laws
// ---------------------------------------------------------------------------

/// A required coin is covered exactly when the first coin of its
/// denomination holds at least the required amount (later coins of the same
/// denomination do not count), and never when no coin has its denomination.
/// A cw20 requirement is met exactly by the same token in at least the amount.
pub proof fn lemma_first_coin_of_denomination_decides(coins: Seq<Coin>, required: Coin, i: int, current: Cw20CoinVerified, expected: Cw20CoinVerified)
    ensures
        0 <= i < coins.len() && coins[i].denom@ == required.denom@ && (forall|j: int|
            0 <= j < i ==> coins[j].denom@ != required.denom@) ==> (covers_coin(coins, required) <==> coins[i].amount
            >= required.amount),
        (forall|j: int| 0 <= j < coins.len() ==> coins[j].denom@ != required.denom@) ==> !covers_coin(coins, required),
        meets_balance(Balance::Cw20(current), Balance::Cw20(expected)) <==> (current.address@ == expected.address@
            && current.amount >= expected.amount),
{
    if 0 <= i < coins.len() && coins[i].denom@ == required.denom@ && (forall|j: int|
        0 <= j < i ==> coins[j].denom@ != required.denom@) {
        assert(first_of_denom(coins, i, required.denom@));
        if covers_coin(coins, required) {
            let k = choose|k: int| first_of_denom(coins, k, required.denom@) && coins[k].amount >= required.amount;
            if k < i {
                assert(coins[k].denom@ != required.denom@);
            } else if k > i {
                assert(coins[i].denom@ != required.denom@);
            }
        }
    }
}

/// A native balance meets itself when no denomination occurs in it twice.
pub proof fn lemma_balance_meets_itself(balance: Balance)
    requires
        balance matches Balance::Native(n) ==> forall|i: int, j: int|
            0 <= i < j < n.0@.len() ==> n.0@[i].denom@ != n.0@[j].denom@,
    ensures
        meets_balance(balance, balance),
{
    match balance {
        Balance::Native(n) => {
            assert forall|k: int| 0 <= k < n.0@.len() implies #[trigger] covers_coin(
                n.0@,
                n.0@[k],
            ) by {
                assert(first_of_denom(n.0@, k, n.0@[k].denom@));
            }
        },
        Balance::Cw20(_) => {},
    }
}

/// Meeting a requirement survives a larger cw20 amount of the same token.
pub proof fn lemma_larger_cw20_still_meets(current: Cw20CoinVerified, larger: Cw20CoinVerified, required: Balance)
    requires
        meets_balance(Balance::Cw20(current), required),
        larger.address@ == current.address@,
        larger.amount >= current.amount,
    ensures
        meets_balance(Balance::Cw20(larger), required),
{
}

/// `coin` asks for a denomination and amount that `coins` asks for too.
pub open spec fn coin_listed(coin: Coin, coins: Seq<Coin>) -> bool {
    exists|m: int| 0 <= m < coins.len() && coins[m].denom@ == coin.denom@ && coins[m].amount == coin.amount
}

/// Every coin of `fewer` is listed in `expected`.
pub open spec fn coins_listed(fewer: Seq<Coin>, expected: Seq<Coin>) -> bool {
    forall|k: int| 0 <= k < fewer.len() ==> #[trigger] coin_listed(fewer[k], expected)
}

/// A native balance that meets a requirement meets every requirement that
/// asks only for coins (denomination and amount) that the first one asks for.
pub proof fn lemma_fewer_coins_still_met(native: NativeBalance, expected: NativeBalance, fewer: NativeBalance)
    requires
        meets_balance(Balance::Native(native), Balance::Native(expected)),
        coins_listed(fewer.0@, expected.0@),
    ensures
        meets_balance(Balance::Native(native), Balance::Native(fewer)),
{
    assert forall|k: int| 0 <= k < fewer.0@.len() implies #[trigger] covers_coin(native.0@, fewer.0@[k]) by {
        assert(coin_listed(fewer.0@[k], expected.0@));
        let m = choose|m: int|
            0 <= m < expected.0@.len() && expected.0@[m].denom@ == fewer.0@[k].denom@ && expected.0@[m].amount
                == fewer.0@[k].amount;
        assert(covers_coin(native.0@, expected.0@[m]));
        let i = choose|i: int|
            first_of_denom(native.0@, i, expected.0@[m].denom@) && native.0@[i].amount >= expected.0@[m].amount;
        assert(first_of_denom(native.0@, i, fewer.0@[k].denom@));
    }
    assert(covers_all(native.0@, fewer.0@));
}

/// Dropping required coins from the end of a met native requirement keeps it met.
pub proof fn lemma_shorter_requirement_still_met(
    native: NativeBalance,
    expected: NativeBalance,
    fewer: NativeBalance,
    n: int,
)
    requires
        meets_balance(Balance::Native(native), Balance::Native(expected)),
        0 <= n <= expected.0@.len(),
        fewer.0@ == expected.0@.take(n),
    ensures
        meets_balance(Balance::Native(native), Balance::Native(fewer)),
{
    assert forall|k: int| 0 <= k < fewer.0@.len() implies #[trigger] coin_listed(fewer.0@[k], expected.0@) by {
        assert(fewer.0@[k] == expected.0@[k]);
    }
    lemma_fewer_coins_still_met(native, expected, fewer);
}

/// An empty native requirement is met by every native balance, and a native
/// requirement is never met by a cw20 balance nor the other way round.
pub proof fn lemma_balance_kinds(balance: Balance, required: Balance)
    ensures
        balance is Native ==> (required matches Balance::Native(e) && e.0@.len() == 0 ==> meets_balance(
            balance,
            required,
        )),
        (balance is Native) != (required is Native) ==> !meets_balance(balance, required),
{
}

} // verus!
