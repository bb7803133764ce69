//! The community fund: the protocol tax accumulates per currency and is
//! divided, at intervals, in equal parts among the identities that are
//! active at that time.

use vstd::prelude::*;
use crate::clock::get_current_timestamp;
use crate::dht::{bytes_of, elapsed_seconds, pairs, seconds_between, text_bytes, transaction_record, Dht, DhtView, transaction_key};
use crate::error::CoreError;
use crate::outside::json_number;
use crate::seqs::{first_index, lemma_first_index, lemma_first_index_is, lemma_first_index_none};
use crate::text::{after_last, chars_of, decimal, decimal_u64, digit_value, joined, last_position, lemma_decimal_value, lemma_last_index_of, owned, parse_digits, push_decimal, push_text, replace_char, replaced};
use crate::types::{opt_bytes, texts, CommunityFund, CommunityFundBalance, CommunityFundBalanceView, CommunityFundDistribution, Currency};

verus! {

/// The time that must pass between two distributions of a fund: 12 hours.
pub const DISTRIBUTION_INTERVAL_SECONDS: u64 = 43200;

/// How long a stored fund record is kept: 24 hours.
pub const FUND_RECORD_TTL_SECONDS: u64 = 86400;

/// A distribution transaction as it is found in the log: when it was made,
/// and what it paid.
#[derive(Debug, Clone, Copy, PartialEq, Eq, Structural)]
pub struct LoggedTransaction {
    pub timestamp: u64,
    pub amount: u64,
}

/// The report on all funds.
#[derive(Debug, Clone, PartialEq, Eq)]
pub struct CommunityFundStats {
    pub currencies: Vec<CommunityFundBalance>,
    /// Seconds until the fund that is due first may be distributed.
    pub next_distribution_in: u64,
    pub total_distributed_all_time: u64,
}

/// The tax on a transaction of `amount`: five percent, rounded down.
pub open spec fn tax_of(amount: u64) -> u64 {
    (amount * 5 / 100) as u64
}

/// The condition "is the fund of `currency`".
pub open spec fn of_currency(currency: Currency) -> spec_fn(CommunityFund) -> bool {
    |f: CommunityFund| f.currency == currency
}

/// The key under which the balance of a fund is stored.
pub open spec fn balance_key(currency: Currency) -> Seq<char> {
    "community_fund_balance_"@ + currency.spec_symbol()
}

/// The key under which the state of a fund is stored.
pub open spec fn state_key(currency: Currency) -> Seq<char> {
    "community_fund_state_"@ + currency.spec_symbol()
}

/// The text stored for the state of a fund: a JSON object with its fields
/// in the order of their declaration.
pub open spec fn fund_state_json(f: CommunityFund) -> Seq<char> {
    "{\"currency\":\""@ + f.currency.spec_symbol() + "\",\"balance\":"@ + decimal(f.balance as nat)
        + ",\"last_distribution\":"@ + decimal(f.last_distribution as nat) + ",\"total_distributed\":"@ + decimal(
        f.total_distributed as nat,
    ) + ",\"distribution_count\":"@ + decimal(f.distribution_count as nat) + "}"@
}

/// The identifier of the transaction that pays `did` its share of the
/// distribution of `currency` at `now`.
pub open spec fn distribution_tx_id(currency: Currency, did: Seq<char>, now: u64) -> Seq<char> {
    "cf-dist-"@ + currency.spec_symbol_lowercase() + "-"@ + replaced(did, ':', '-') + "-"@ + decimal(now as nat)
}

/// The sum of two counters, kept at the largest value where it would pass it.
pub open spec fn capped_sum(a: u64, b: int) -> u64 {
    if a + b > u64::MAX {
        u64::MAX
    } else {
        (a + b) as u64
    }
}

/// The seconds from `now` until `interval` has passed since `last`:
/// `last + interval - now` where that is positive, else zero. Where `last`
/// lies so far ahead of `now` that the seconds do not fit, the largest value.
pub open spec fn seconds_until_due(last: u64, interval: u64, now: u64) -> u64 {
    let left = last + interval - now;
    if left <= 0 {
        0
    } else if left > u64::MAX {
        u64::MAX
    } else {
        left as u64
    }
}

/// The amount as shown to a user: the minor units and the symbol.
pub open spec fn formatted_amount(currency: Currency, amount: u64) -> Seq<char> {
    decimal(amount as nat) + " "@ + currency.spec_symbol()
}

/// The report line of one fund at `now`.
pub open spec fn balance_line(f: CommunityFund, interval: u64, now: u64) -> CommunityFundBalanceView {
    CommunityFundBalanceView {
        currency: f.currency.spec_symbol(),
        balance: f.balance,
        formatted_balance: formatted_amount(f.currency, f.balance),
        last_distribution: f.last_distribution,
        next_distribution: seconds_until_due(f.last_distribution, interval, now),
        total_distributed: f.total_distributed,
        distribution_count: f.distribution_count,
    }
}

/// The least of the waiting times of the given funds; zero for none.
pub open spec fn least_wait(funds: Seq<CommunityFund>, interval: u64, now: u64) -> u64
    decreases funds.len(),
{
    if funds.len() == 0 {
        0
    } else if funds.len() == 1 {
        seconds_until_due(funds[0].last_distribution, interval, now)
    } else {
        let before = least_wait(funds.drop_last(), interval, now);
        let here = seconds_until_due(funds.last().last_distribution, interval, now);
        if here < before {
            here
        } else {
            before
        }
    }
}

/// The prefix of the keys under which the distribution transactions of
/// `currency` are logged.
pub open spec fn log_prefix(currency: Currency) -> Seq<char> {
    "community_fund_tx_cf-dist-"@ + currency.spec_symbol_lowercase() + "-"@
}

/// When the distribution transaction that is logged under `key` was made:
/// the number that follows the last hyphen of the key. `None` where nothing
/// follows it but digits, or where the number does not fit in 64 bits.
pub open spec fn spec_logged_timestamp(key: Seq<char>) -> Option<u64> {
    decimal_u64(after_last(key, '-'))
}

/// The sum of what the transactions of `txs` that were made after `since`
/// paid, capped at the largest value.
pub open spec fn paid_since(txs: Seq<LoggedTransaction>, since: u64) -> u64
    decreases txs.len(),
{
    if txs.len() == 0 {
        0
    } else if txs.last().timestamp > since {
        capped_sum(paid_since(txs.drop_last(), since), txs.last().amount as int)
    } else {
        paid_since(txs.drop_last(), since)
    }
}

/// The time of the latest of the transactions of `txs` that were made after
/// `since`; `since` itself where there is none.
pub open spec fn latest_since(txs: Seq<LoggedTransaction>, since: u64) -> u64
    decreases txs.len(),
{
    if txs.len() == 0 {
        since
    } else if txs.last().timestamp > latest_since(txs.drop_last(), since) {
        txs.last().timestamp
    } else {
        latest_since(txs.drop_last(), since)
    }
}

/// The fund after the logged transactions that it does not reflect yet,
/// which are those made after its last distribution, are booked as one
/// distribution: what they paid leaves the balance, as far as it reaches.
pub open spec fn reconciled(f: CommunityFund, txs: Seq<LoggedTransaction>) -> CommunityFund {
    let latest = latest_since(txs, f.last_distribution);
    let paid = paid_since(txs, f.last_distribution);
    if latest == f.last_distribution {
        f
    } else {
        CommunityFund {
            currency: f.currency,
            balance: if paid >= f.balance {
                0
            } else {
                (f.balance - paid) as u64
            },
            last_distribution: latest,
            total_distributed: capped_sum(f.total_distributed, paid as int),
            distribution_count: capped_sum(f.distribution_count, 1),
        }
    }
}

/// The sum of what the given funds have distributed, capped at the largest
/// value.
pub open spec fn total_distributed(funds: Seq<CommunityFund>) -> u64
    decreases funds.len(),
{
    if funds.len() == 0 {
        0
    } else {
        capped_sum(total_distributed(funds.drop_last()), funds.last().total_distributed as int)
    }
}

/// The store after a distribution of `amount` to each of `dids` at `now` has
/// been logged, one identity after the other.
pub open spec fn log_all(dht: DhtView, currency: Currency, dids: Seq<Seq<char>>, amount: u64, now: u64) -> DhtView
    decreases dids.len(),
{
    if dids.len() == 0 {
        dht
    } else {
        log_all(dht, currency, dids.drop_last(), amount, now).log_transaction(
            distribution_tx_id(currency, dids.last(), now),
            currency,
            dids.last(),
            amount,
            now,
        )
    }
}

/// The identifiers of the transactions that were recorded while a
/// distribution of `amount` to each of `dids` at `now` was logged: one for
/// each identity but those whose identifier was taken by another record.
pub open spec fn recorded_ids(
    dht: DhtView,
    currency: Currency,
    dids: Seq<Seq<char>>,
    amount: u64,
    now: u64,
) -> Seq<Seq<char>>
    decreases dids.len(),
{
    if dids.len() == 0 {
        Seq::empty()
    } else {
        let before = recorded_ids(dht, currency, dids.drop_last(), amount, now);
        let id = distribution_tx_id(currency, dids.last(), now);
        if log_all(dht, currency, dids.drop_last(), amount, now).can_log_transaction(
            id,
            text_bytes(transaction_record(currency, dids.last(), amount)),
            now,
        ) {
            before.push(id)
        } else {
            before
        }
    }
}

/// What a [`CommunityFundDistribution`] stands for.
pub struct DistributionView {
    pub currency: Currency,
    pub amount_per_user: u64,
    pub total_users: usize,
    pub distribution_timestamp: u64,
    pub transaction_ids: Seq<Seq<char>>,
}

impl View for CommunityFundDistribution {
    type V = DistributionView;

    open spec fn view(&self) -> DistributionView {
        DistributionView {
            currency: self.currency,
            amount_per_user: self.amount_per_user,
            total_users: self.total_users,
            distribution_timestamp: self.distribution_timestamp,
            transaction_ids: texts(self.transaction_ids@),
        }
    }
}

/// What a [`CommunityFundManager`] stands for.
pub struct FundsView {
    pub funds: Seq<CommunityFund>,
    pub distribution_interval: u64,
    pub trusted_nodes: Seq<Seq<char>>,
}

impl FundsView {
    /// There is at most one fund per currency, and distributions are spaced
    /// by a positive interval.
    pub open spec fn wf(self) -> bool {
        &&& forall|i: int, j: int| 0 <= i < j < self.funds.len() ==> self.funds[i].currency != self.funds[j].currency
        &&& self.distribution_interval > 0
    }

    /// Where the fund of `currency` is kept, if there is one.
    pub open spec fn fund_index(self, currency: Currency) -> Option<int> {
        first_index(self.funds, of_currency(currency))
    }

    /// The fund of `currency`, if there is one.
    pub open spec fn fund(self, currency: Currency) -> Option<CommunityFund> {
        match self.fund_index(currency) {
            Some(i) => Some(self.funds[i]),
            None => None,
        }
    }

    /// The balance of the fund of `currency`; zero where there is no fund.
    pub open spec fn balance(self, currency: Currency) -> u64 {
        match self.fund(currency) {
            Some(f) => f.balance,
            None => 0,
        }
    }

    /// The funds with `fund` in the place of the fund of its currency.
    pub open spec fn with_fund(self, fund: CommunityFund) -> FundsView {
        match self.fund_index(fund.currency) {
            Some(i) => FundsView { funds: self.funds.update(i, fund), ..self },
            None => self,
        }
    }

    /// Whether the fund of `currency` can take `tax_amount` more.
    pub open spec fn tax_fits(self, currency: Currency, tax_amount: u64) -> bool {
        self.balance(currency) + tax_amount <= u64::MAX
    }

    /// The funds after `tax_amount` is credited to the fund of `currency`.
    /// Nothing changes where there is no such fund or the amount does not
    /// fit.
    pub open spec fn add_tax(self, currency: Currency, tax_amount: u64) -> FundsView {
        match self.fund(currency) {
            Some(f) => if self.tax_fits(currency, tax_amount) {
                self.with_fund(CommunityFund { balance: (f.balance + tax_amount) as u64, ..f })
            } else {
                self
            },
            None => self,
        }
    }

    /// Why `tax_amount` cannot be credited to the fund of `currency`, if it
    /// cannot: there must be such a fund, and the amount must fit in its
    /// balance.
    pub open spec fn add_tax_refusal(self, currency: Currency, tax_amount: u64) -> Option<CoreError> {
        if self.fund(currency).is_none() {
            Some(CoreError::FundNotFound)
        } else if !self.tax_fits(currency, tax_amount) {
            Some(CoreError::BalanceOverflow)
        } else {
            None
        }
    }

    /// The store after `tax_amount` is credited at `now`: the new balance is
    /// written under the balance key of the currency, and the state of the
    /// credited fund under its state key. Nothing is written where the
    /// credit is refused.
    pub open spec fn add_tax_record(self, dht: DhtView, currency: Currency, tax_amount: u64, now: u64) -> DhtView {
        if self.add_tax_refusal(currency, tax_amount).is_none() {
            dht.store(
                balance_key(currency),
                text_bytes(decimal((self.balance(currency) + tax_amount) as nat)),
                FUND_RECORD_TTL_SECONDS,
                now,
            ).store(
                state_key(currency),
                text_bytes(fund_state_json(self.add_tax(currency, tax_amount).fund(currency).unwrap())),
                FUND_RECORD_TTL_SECONDS,
                now,
            )
        } else {
            dht
        }
    }

    /// Whether the fund of `currency` is due for distribution at `now`.
    pub open spec fn due(self, currency: Currency, now: u64) -> bool {
        match self.fund(currency) {
            Some(f) => seconds_between(f.last_distribution, now) >= self.distribution_interval,
            None => false,
        }
    }

    /// Each recipient's share where the fund of `currency` is divided among
    /// `recipients` identities.
    pub open spec fn share(self, currency: Currency, recipients: nat) -> u64 {
        if recipients == 0 {
            0
        } else {
            (self.balance(currency) as nat / recipients) as u64
        }
    }

    /// Whether a distribution of `currency` among `recipients` active
    /// identities at `now` would give each of them something.
    pub open spec fn should_distribute(self, currency: Currency, recipients: nat, now: u64) -> bool {
        self.due(currency, now) && recipients > 0 && self.share(currency, recipients) > 0
    }

    /// Why a distribution of `currency` among `recipients` active identities
    /// at `now` is refused before anything is attempted, if it is.
    pub open spec fn refusal(self, currency: Currency, recipients: nat, now: u64) -> Option<CoreError> {
        if self.fund(currency).is_none() {
            Some(CoreError::FundNotFound)
        } else if !self.due(currency, now) {
            Some(CoreError::NotDue)
        } else if recipients == 0 {
            Some(CoreError::NoRecipients)
        } else if self.share(currency, recipients) == 0 {
            Some(CoreError::InsufficientBalance)
        } else {
            None
        }
    }

    /// The identifiers of the transactions that a distribution of `currency`
    /// at `now` records in `dht`.
    pub open spec fn distribution_ids(self, dht: DhtView, currency: Currency, now: u64) -> Seq<Seq<char>> {
        let dids = dht.active_dids(now);
        recorded_ids(dht, currency, dids, self.share(currency, dids.len()), now)
    }

    /// What a distribution of `currency` at `now` returns.
    pub open spec fn distribution_result(self, dht: DhtView, currency: Currency, now: u64) -> Result<
        DistributionView,
        CoreError,
    > {
        let dids = dht.active_dids(now);
        match self.refusal(currency, dids.len(), now) {
            Some(e) => Err(e),
            None => {
                let ids = self.distribution_ids(dht, currency, now);
                if ids.len() == 0 {
                    Err(CoreError::NothingRecorded)
                } else {
                    Ok(
                        DistributionView {
                            currency,
                            amount_per_user: self.share(currency, dids.len()),
                            total_users: ids.len() as usize,
                            distribution_timestamp: now,
                            transaction_ids: ids,
                        },
                    )
                }
            },
        }
    }

    /// The fund of `currency` after `count` recipients were paid `share`
    /// each at `now`.
    pub open spec fn paid_out(f: CommunityFund, share: u64, count: nat, now: u64) -> CommunityFund {
        CommunityFund {
            currency: f.currency,
            balance: (f.balance - share * count) as u64,
            last_distribution: now,
            total_distributed: capped_sum(f.total_distributed, share * count),
            distribution_count: capped_sum(f.distribution_count, 1),
        }
    }

    /// The funds after a distribution of `currency` at `now`. Nothing
    /// changes unless at least one transaction was recorded.
    pub open spec fn distribute(self, dht: DhtView, currency: Currency, now: u64) -> FundsView {
        match self.distribution_result(dht, currency, now) {
            Ok(d) => self.with_fund(
                FundsView::paid_out(self.fund(currency).unwrap(), d.amount_per_user, d.transaction_ids.len(), now),
            ),
            Err(_) => self,
        }
    }

    /// The store after a distribution of `currency` at `now`: the recorded
    /// transactions are in the log, and after a distribution that paid
    /// anyone the new state of the fund is under its state key.
    pub open spec fn distribute_record(self, dht: DhtView, currency: Currency, now: u64) -> DhtView {
        let dids = dht.active_dids(now);
        match self.refusal(currency, dids.len(), now) {
            Some(_) => dht,
            None => {
                let logged = log_all(dht, currency, dids, self.share(currency, dids.len()), now);
                match self.distribution_result(dht, currency, now) {
                    Ok(d) => logged.store(
                        state_key(currency),
                        text_bytes(fund_state_json(self.distribute(dht, currency, now).fund(currency).unwrap())),
                        FUND_RECORD_TTL_SECONDS,
                        now,
                    ),
                    Err(_) => logged,
                }
            },
        }
    }

    /// The funds after the fund of `currency` is reconciled with the logged
    /// transactions `txs`.
    pub open spec fn reconcile(self, currency: Currency, txs: Seq<LoggedTransaction>) -> FundsView {
        match self.fund(currency) {
            Some(f) => self.with_fund(reconciled(f, txs)),
            None => self,
        }
    }

    /// The store after the fund of `currency` is reconciled at `now`: the
    /// state of the fund is written where it changed.
    pub open spec fn reconcile_record(self, dht: DhtView, currency: Currency, txs: Seq<LoggedTransaction>, now: u64) -> DhtView {
        match self.fund(currency) {
            Some(f) => if reconciled(f, txs) != f {
                dht.store(
                    state_key(currency),
                    text_bytes(fund_state_json(reconciled(f, txs))),
                    FUND_RECORD_TTL_SECONDS,
                    now,
                )
            } else {
                dht
            },
            None => dht,
        }
    }

    /// The report on all funds at `now`.
    pub open spec fn report_lines(self, now: u64) -> Seq<CommunityFundBalanceView> {
        self.funds.map_values(|f: CommunityFund| balance_line(f, self.distribution_interval, now))
    }

    /// The funds after the stored state `fund` is taken over: it replaces
    /// the fund of its currency, or is added where there was none.
    pub open spec fn load(self, fund: CommunityFund) -> FundsView {
        match self.fund_index(fund.currency) {
            Some(i) => FundsView { funds: self.funds.update(i, fund), ..self },
            None => FundsView { funds: self.funds.push(fund), ..self },
        }
    }
}

/// The accumulator and distributor of the community funds.
pub struct CommunityFundManager {
    funds: Vec<CommunityFund>,
    distribution_interval: u64,
    trusted_nodes: Vec<String>,
}

impl View for CommunityFundManager {
    type V = FundsView;

    closed spec fn view(&self) -> FundsView {
        FundsView {
            funds: self.funds@,
            distribution_interval: self.distribution_interval,
            trusted_nodes: texts(self.trusted_nodes@),
        }
    }
}

/// A fund of `currency` that has never received or distributed anything.
pub open spec fn empty_fund(currency: Currency) -> CommunityFund {
    CommunityFund { currency, balance: 0, last_distribution: 0, total_distributed: 0, distribution_count: 0 }
}

/// The funds that a new manager starts with: an empty one for every
/// currency but the native one.
pub open spec fn initial_funds() -> Seq<CommunityFund> {
    seq![
        empty_fund(Currency::BTC),
        empty_fund(Currency::ETH),
        empty_fund(Currency::USDC),
        empty_fund(Currency::LTC),
        empty_fund(Currency::XMR),
        empty_fund(Currency::DOGE),
    ]
}

fn new_fund(currency: Currency) -> (f: CommunityFund)
    ensures
        f == empty_fund(currency),
{
    CommunityFund { currency, balance: 0, last_distribution: 0, total_distributed: 0, distribution_count: 0 }
}

impl CommunityFundManager {
    /// Whether the manager keeps its invariant.
    pub open spec fn wf(&self) -> bool {
        self@.wf()
    }

    /// A manager with an empty fund for every currency but the native one,
    /// the default interval and the three trusted nodes.
    pub fn new() -> (m: CommunityFundManager)
        ensures
            m.wf(),
            m@.funds == initial_funds(),
            m@.distribution_interval == DISTRIBUTION_INTERVAL_SECONDS,
            m@.trusted_nodes == seq![
                "did:duxnet:trusted-node-1"@,
                "did:duxnet:trusted-node-2"@,
                "did:duxnet:trusted-node-3"@,
            ],
    {
        let mut funds: Vec<CommunityFund> = Vec::new();
        funds.push(new_fund(Currency::BTC));
        funds.push(new_fund(Currency::ETH));
        funds.push(new_fund(Currency::USDC));
        funds.push(new_fund(Currency::LTC));
        funds.push(new_fund(Currency::XMR));
        funds.push(new_fund(Currency::DOGE));
        let mut trusted_nodes: Vec<String> = Vec::new();
        trusted_nodes.push(owned("did:duxnet:trusted-node-1"));
        trusted_nodes.push(owned("did:duxnet:trusted-node-2"));
        trusted_nodes.push(owned("did:duxnet:trusted-node-3"));
        assert(funds@ =~= initial_funds());
        assert(texts(trusted_nodes@) =~= seq![
            "did:duxnet:trusted-node-1"@,
            "did:duxnet:trusted-node-2"@,
            "did:duxnet:trusted-node-3"@,
        ]);
        CommunityFundManager { funds, distribution_interval: DISTRIBUTION_INTERVAL_SECONDS, trusted_nodes }
    }

    /// The tax on a transaction of `amount`: five percent, rounded down.
    pub fn calculate_tax_amount(&self, amount: u64) -> (tax: u64)
        ensures
            tax == tax_of(amount),
            tax == amount * 5 / 100,
    {
        assert(amount * 5 / 100 == amount / 20) by (nonlinear_arith);
        amount / 20
    }

    fn find(&self, currency: Currency) -> (r: Option<usize>)
        ensures
            match r {
                Some(i) => self@.fund_index(currency) == Some(i as int) && i < self.funds.len(),
                None => self@.fund_index(currency).is_none(),
            },
    {
        let mut i: usize = 0;
        while i < self.funds.len()
            invariant
                i <= self.funds.len(),
                forall|j: int| 0 <= j < i ==> !of_currency(currency)(#[trigger] self@.funds[j]),
            decreases self.funds.len() - i,
        {
            if self.funds[i].currency == currency {
                proof {
                    lemma_first_index_is(self@.funds, of_currency(currency), i as int);
                }
                return Some(i);
            }
            i = i + 1;
        }
        proof {
            lemma_first_index_none(self@.funds, of_currency(currency));
        }
        None
    }

    /// Credits `tax_amount` to the fund of `currency` and writes the new
    /// balance and the state of the fund to the store at `now`.
    ///
    /// Fails, and changes and writes nothing, where the currency has no
    /// fund, or the amount does not fit in the balance.
    pub fn add_tax_to_fund_at(&mut self, dht: &mut Dht, currency: Currency, tax_amount: u64, now: u64) -> (r: Result<
        (),
        CoreError,
    >)
        requires
            old(self).wf(),
            old(dht).wf(),
        ensures
            final(self).wf(),
            final(dht).wf(),
            match r {
                Ok(()) => old(self)@.add_tax_refusal(currency, tax_amount).is_none(),
                Err(e) => old(self)@.add_tax_refusal(currency, tax_amount) == Some(e),
            },
            final(self)@ == old(self)@.add_tax(currency, tax_amount),
            final(dht)@ == old(self)@.add_tax_record(old(dht)@, currency, tax_amount, now),
    {
        proof {
            lemma_first_index(self@.funds, of_currency(currency));
        }
        match self.find(currency) {
            Some(i) => {
                match self.funds[i].balance.checked_add(tax_amount) {
                    Some(balance) => {
                        self.funds[i].balance = balance;
                        let credited = self.funds[i];
                        assert(self.funds@ =~= old(self).funds@.update(i as int, credited));
                        proof {
                            lemma_with_fund(old(self)@, credited);
                        }
                        let key = joined("community_fund_balance_", currency.symbol());
                        let text = json_number(balance).unwrap();
                        dht.store(key, bytes_of(text.as_str()), FUND_RECORD_TTL_SECONDS, now);
                        let state_key = joined("community_fund_state_", currency.symbol());
                        let state = fund_state_text(&credited);
                        dht.store(state_key, bytes_of(state.as_str()), FUND_RECORD_TTL_SECONDS, now);
                        Ok(())
                    },
                    None => Err(CoreError::BalanceOverflow),
                }
            },
            None => Err(CoreError::FundNotFound),
        }
    }

    /// Credits `tax_amount` to the fund of `currency` and writes the new
    /// balance and the state of the fund to the store at the time of the
    /// system clock.
    ///
    /// Fails, and changes and writes nothing, where the currency has no
    /// fund, or the amount does not fit in the balance.
    pub fn add_tax_to_fund(&mut self, dht: &mut Dht, currency: Currency, tax_amount: u64) -> (r: Result<(), CoreError>)
        requires
            old(self).wf(),
            old(dht).wf(),
        ensures
            final(self).wf(),
            final(dht).wf(),
            match r {
                Ok(()) => old(self)@.add_tax_refusal(currency, tax_amount).is_none(),
                Err(e) => old(self)@.add_tax_refusal(currency, tax_amount) == Some(e),
            },
            final(self)@ == old(self)@.add_tax(currency, tax_amount),
            exists|now: u64| final(dht)@ == old(self)@.add_tax_record(old(dht)@, currency, tax_amount, now),
    {
        let now = get_current_timestamp();
        self.add_tax_to_fund_at(dht, currency, tax_amount, now)
    }

    /// The balance of the fund of `currency`; zero where there is no fund.
    pub fn get_fund_balance(&self, currency: &Currency) -> (balance: u64)
        ensures
            balance == self@.balance(*currency),
    {
        match self.find(*currency) {
            Some(i) => self.funds[i].balance,
            None => 0,
        }
    }

    /// All funds, in the order in which they were set up.
    pub fn get_all_fund_balances(&self) -> (funds: Vec<CommunityFund>)
        ensures
            funds@ == self@.funds,
    {
        self.funds.clone()
    }

    /// Whether a distribution of `currency` at `now` would pay anyone: the
    /// fund exists and is due, and its balance gives every identity that is
    /// active in `dht` at least one unit.
    pub fn should_distribute_at(&self, dht: &Dht, currency: &Currency, now: u64) -> (r: bool)
        ensures
            r == self@.should_distribute(*currency, dht@.active_dids(now).len(), now),
    {
        match self.find(*currency) {
            Some(i) => {
                let f = self.funds[i];
                if elapsed_seconds(f.last_distribution, now) < self.distribution_interval {
                    return false;
                }
                let dids = dht.get_active_dids(now);
                assert(dids@.len() == texts(dids@).len());
                if dids.len() == 0 {
                    return false;
                }
                f.balance / (dids.len() as u64) > 0
            },
            None => false,
        }
    }

    /// Whether a distribution of `currency` at the time of the system clock
    /// would pay anyone.
    pub fn should_distribute(&self, dht: &Dht, currency: &Currency) -> (r: bool)
        ensures
            exists|now: u64| r == self@.should_distribute(*currency, dht@.active_dids(now).len(), now),
    {
        let now = get_current_timestamp();
        self.should_distribute_at(dht, currency, now)
    }

    /// Divides the fund of `currency` in equal parts among the identities
    /// that are active in `dht` at `now`.
    ///
    /// The call is refused, and nothing changes, where the fund does not
    /// exist, is not yet due, has no recipient, or has too little for one
    /// unit each. Else a transaction is logged for each recipient; the fund
    /// is debited by the recorded transactions, stamped with `now` and
    /// written to the store. Where no transaction could be recorded the call
    /// fails and the fund is left as it was.
    pub fn distribute_fund_at(&mut self, dht: &mut Dht, currency: Currency, now: u64) -> (r: Result<
        CommunityFundDistribution,
        CoreError,
    >)
        requires
            old(self).wf(),
            old(dht).wf(),
        ensures
            final(self).wf(),
            final(dht).wf(),
            match r {
                Ok(d) => old(self)@.distribution_result(old(dht)@, currency, now) == Ok::<DistributionView, CoreError>(d@),
                Err(e) => old(self)@.distribution_result(old(dht)@, currency, now) == Err::<DistributionView, CoreError>(e),
            },
            final(self)@ == old(self)@.distribute(old(dht)@, currency, now),
            final(dht)@ == old(self)@.distribute_record(old(dht)@, currency, now),
    {
        proof {
            lemma_first_index(self@.funds, of_currency(currency));
        }
        let i = match self.find(currency) {
            Some(i) => i,
            None => {
                return Err(CoreError::FundNotFound);
            },
        };
        let fund = self.funds[i];
        if elapsed_seconds(fund.last_distribution, now) < self.distribution_interval {
            return Err(CoreError::NotDue);
        }
        let dids = dht.get_active_dids(now);
        assert(dids@.len() == texts(dids@).len());
        if dids.len() == 0 {
            return Err(CoreError::NoRecipients);
        }
        let amount_per_user: u64 = fund.balance / (dids.len() as u64);
        if amount_per_user == 0 {
            return Err(CoreError::InsufficientBalance);
        }
        let ghost all = texts(dids@);
        let ghost start = dht@;
        let mut transaction_ids: Vec<String> = Vec::new();
        let mut k: usize = 0;
        assert(texts(transaction_ids@) =~= Seq::empty());
        while k < dids.len()
            invariant
                k <= dids.len(),
                all == texts(dids@),
                dht.wf(),
                dht@ == log_all(start, currency, all.take(k as int), amount_per_user, now),
                texts(transaction_ids@) == recorded_ids(start, currency, all.take(k as int), amount_per_user, now),
                transaction_ids.len() <= k,
            decreases dids.len() - k,
        {
            proof {
                assert(all.take(k + 1).drop_last() =~= all.take(k as int));
                assert(all.take(k + 1).last() == dids@[k as int]@);
            }
            let did = dids[k].as_str();
            let mut tx_id = owned("cf-dist-");
            push_text(&mut tx_id, currency.symbol_lowercase());
            push_text(&mut tx_id, "-");
            push_text(&mut tx_id, replace_char(did, ':', '-').as_str());
            push_text(&mut tx_id, "-");
            push_decimal(&mut tx_id, now);
            if dht.store_community_fund_transaction(tx_id.as_str(), currency, did, amount_per_user, now) {
                let ghost before = transaction_ids@;
                transaction_ids.push(tx_id);
                assert(texts(transaction_ids@) =~= texts(before).push(distribution_tx_id(currency, did@, now)));
            }
            k = k + 1;
        }
        assert(all.take(dids.len() as int) =~= all);
        let successes = transaction_ids.len();
        assert(successes == texts(transaction_ids@).len());
        if successes == 0 {
            return Err(CoreError::NothingRecorded);
        }
        assert(amount_per_user * successes <= fund.balance) by (nonlinear_arith)
            requires
                amount_per_user == fund.balance / (dids.len() as u64),
                0 < successes <= dids.len(),
        ;
        let total: u64 = amount_per_user * (successes as u64);
        let paid = CommunityFund {
            currency: fund.currency,
            balance: fund.balance - total,
            last_distribution: now,
            total_distributed: fund.total_distributed.saturating_add(total),
            distribution_count: fund.distribution_count.saturating_add(1),
        };
        self.funds[i] = paid;
        assert(self.funds@ =~= old(self).funds@.update(i as int, paid));
        let key = joined("community_fund_state_", currency.symbol());
        let text = fund_state_text(&paid);
        dht.store(key, bytes_of(text.as_str()), FUND_RECORD_TTL_SECONDS, now);
        proof {
            lemma_first_index(self@.funds, of_currency(currency));
            assert(of_currency(currency)(self@.funds[i as int]));
            assert forall|j: int| 0 <= j < i implies !of_currency(currency)(#[trigger] self@.funds[j]) by {
                assert(self@.funds[j] == old(self)@.funds[j]);
            }
            lemma_first_index_is(self@.funds, of_currency(currency), i as int);
        }
        Ok(
            CommunityFundDistribution {
                currency,
                amount_per_user,
                total_users: successes,
                distribution_timestamp: now,
                transaction_ids,
            },
        )
    }

    /// Divides the fund of `currency` among the identities that are active
    /// at the time of the system clock.
    pub fn distribute_fund(&mut self, dht: &mut Dht, currency: Currency) -> (r: Result<
        CommunityFundDistribution,
        CoreError,
    >)
        requires
            old(self).wf(),
            old(dht).wf(),
        ensures
            final(self).wf(),
            final(dht).wf(),
            exists|now: u64|
                {
                    &&& match r {
                        Ok(d) => old(self)@.distribution_result(old(dht)@, currency, now) == Ok::<
                            DistributionView,
                            CoreError,
                        >(d@),
                        Err(e) => old(self)@.distribution_result(old(dht)@, currency, now) == Err::<
                            DistributionView,
                            CoreError,
                        >(e),
                    }
                    &&& final(self)@ == old(self)@.distribute(old(dht)@, currency, now)
                    &&& final(dht)@ == old(self)@.distribute_record(old(dht)@, currency, now)
                },
    {
        let now = get_current_timestamp();
        self.distribute_fund_at(dht, currency, now)
    }

    /// The report on all funds at `now`: one line per fund, the least of
    /// their waiting times, and the sum of what they have distributed.
    pub fn get_stats_at(&self, now: u64) -> (stats: CommunityFundStats)
        ensures
            stats.currencies.deep_view() == self@.report_lines(now),
            stats.next_distribution_in == least_wait(self@.funds, self@.distribution_interval, now),
            stats.total_distributed_all_time == total_distributed(self@.funds),
    {
        let mut currencies: Vec<CommunityFundBalance> = Vec::new();
        let mut least: u64 = 0;
        let mut total: u64 = 0;
        let mut i: usize = 0;
        let interval = self.distribution_interval;
        while i < self.funds.len()
            invariant
                i <= self.funds.len(),
                interval == self.distribution_interval,
                currencies.len() == i,
                forall|j: int| 0 <= j < i ==> currencies@[j]@ == balance_line(self.funds@[j], interval, now),
                least == least_wait(self.funds@.take(i as int), interval, now),
                total == total_distributed(self.funds@.take(i as int)),
            decreases self.funds.len() - i,
        {
            proof {
                assert(self.funds@.take(i + 1).drop_last() =~= self.funds@.take(i as int));
                assert(self.funds@.take(i + 1).last() == self.funds@[i as int]);
                if i == 0 {
                    assert(self.funds@.take(1)[0] == self.funds@[0]);
                }
            }
            let f = self.funds[i];
            let wait: u64 = if now >= f.last_distribution {
                let waited: u64 = now - f.last_distribution;
                if waited >= interval {
                    0
                } else {
                    interval - waited
                }
            } else {
                interval.saturating_add(f.last_distribution - now)
            };
            let mut formatted = owned("");
            push_decimal(&mut formatted, f.balance);
            push_text(&mut formatted, " ");
            push_text(&mut formatted, f.currency.symbol());
            proof {
                reveal_strlit("");
                assert(formatted@ =~= formatted_amount(f.currency, f.balance));
            }
            currencies.push(
                CommunityFundBalance {
                    currency: owned(f.currency.symbol()),
                    balance: f.balance,
                    formatted_balance: formatted,
                    last_distribution: f.last_distribution,
                    next_distribution: wait,
                    total_distributed: f.total_distributed,
                    distribution_count: f.distribution_count,
                },
            );
            if i == 0 || wait < least {
                least = wait;
            }
            total = total.saturating_add(f.total_distributed);
            i = i + 1;
        }
        assert(self.funds@.take(self.funds.len() as int) =~= self.funds@);
        assert(currencies.deep_view() =~= self@.report_lines(now));
        CommunityFundStats { currencies, next_distribution_in: least, total_distributed_all_time: total }
    }

    /// The report on all funds at the time of the system clock.
    pub fn get_stats(&self) -> (stats: CommunityFundStats)
        ensures
            exists|now: u64|
                {
                    &&& stats.currencies.deep_view() == self@.report_lines(now)
                    &&& stats.next_distribution_in == least_wait(self@.funds, self@.distribution_interval, now)
                    &&& stats.total_distributed_all_time == total_distributed(self@.funds)
                },
    {
        let now = get_current_timestamp();
        self.get_stats_at(now)
    }

    /// The logged distribution transactions of `currency` that have not
    /// expired at `now`: their keys and their records, in store order.
    pub fn logged_transactions(&self, dht: &Dht, currency: &Currency, now: u64) -> (r: Vec<(String, Vec<u8>)>)
        ensures
            pairs(r@) == dht@.list_by_prefix(log_prefix(*currency), now),
    {
        let mut prefix = owned("community_fund_tx_cf-dist-");
        push_text(&mut prefix, currency.symbol_lowercase());
        push_text(&mut prefix, "-");
        dht.list_by_prefix(prefix.as_str(), now)
    }

    /// Brings the fund of `currency` in step with the log after a
    /// distribution was interrupted: the logged transactions that the fund
    /// does not reflect yet, which are those of `transactions` made after
    /// its last distribution, are booked as one distribution, and the state
    /// of the fund is written to the store at `now`. Returns what they paid.
    ///
    /// Fails, and changes nothing, where the currency has no fund.
    pub fn reconcile(&mut self, dht: &mut Dht, currency: Currency, transactions: &Vec<LoggedTransaction>, now: u64) -> (r: Result<
        u64,
        CoreError,
    >)
        requires
            old(self).wf(),
            old(dht).wf(),
        ensures
            final(self).wf(),
            final(dht).wf(),
            final(self)@ == old(self)@.reconcile(currency, transactions@),
            final(dht)@ == old(self)@.reconcile_record(old(dht)@, currency, transactions@, now),
            match r {
                Ok(paid) => old(self)@.fund(currency).is_some() && paid == paid_since(
                    transactions@,
                    old(self)@.fund(currency).unwrap().last_distribution,
                ),
                Err(e) => e == CoreError::FundNotFound && old(self)@.fund(currency).is_none(),
            },
    {
        proof {
            lemma_first_index(self@.funds, of_currency(currency));
        }
        let i = match self.find(currency) {
            Some(i) => i,
            None => {
                return Err(CoreError::FundNotFound);
            },
        };
        let fund = self.funds[i];
        let since = fund.last_distribution;
        let mut paid: u64 = 0;
        let mut latest: u64 = since;
        let mut k: usize = 0;
        while k < transactions.len()
            invariant
                k <= transactions.len(),
                paid == paid_since(transactions@.take(k as int), since),
                latest == latest_since(transactions@.take(k as int), since),
                latest >= since,
            decreases transactions.len() - k,
        {
            proof {
                assert(transactions@.take(k + 1).drop_last() =~= transactions@.take(k as int));
                assert(transactions@.take(k + 1).last() == transactions@[k as int]);
            }
            let t = transactions[k];
            if t.timestamp > since {
                paid = paid.saturating_add(t.amount);
            }
            if t.timestamp > latest {
                latest = t.timestamp;
            }
            k = k + 1;
        }
        assert(transactions@.take(transactions.len() as int) =~= transactions@);
        if latest == since {
            assert(self.funds@.update(i as int, fund) =~= self.funds@);
            return Ok(paid);
        }
        let booked = CommunityFund {
            currency: fund.currency,
            balance: if paid >= fund.balance {
                0
            } else {
                fund.balance - paid
            },
            last_distribution: latest,
            total_distributed: fund.total_distributed.saturating_add(paid),
            distribution_count: fund.distribution_count.saturating_add(1),
        };
        self.funds[i] = booked;
        assert(self.funds@ =~= old(self).funds@.update(i as int, booked));
        let key = joined("community_fund_state_", currency.symbol());
        let text = fund_state_text(&booked);
        dht.store(key, bytes_of(text.as_str()), FUND_RECORD_TTL_SECONDS, now);
        Ok(paid)
    }

    /// The bytes stored for the state of the fund of `currency`, if there
    /// are any that have not expired at `now`.
    pub fn stored_fund_state(&self, dht: &Dht, currency: &Currency, now: u64) -> (r: Option<Vec<u8>>)
        ensures
            opt_bytes(r) == dht@.get(state_key(*currency), now),
    {
        let key = joined("community_fund_state_", currency.symbol());
        dht.get(key.as_str(), now)
    }

    /// Takes over a stored state of a fund: it replaces the fund of its
    /// currency, or is added where there was none.
    pub fn load_fund_state(&mut self, fund: CommunityFund)
        requires
            old(self).wf(),
        ensures
            final(self).wf(),
            final(self)@ == old(self)@.load(fund),
    {
        proof {
            lemma_first_index(self@.funds, of_currency(fund.currency));
        }
        match self.find(fund.currency) {
            Some(i) => {
                self.funds[i] = fund;
                assert(self.funds@ =~= old(self).funds@.update(i as int, fund));
            },
            None => {
                self.funds.push(fund);
                assert(forall|j: int| 0 <= j < old(self)@.funds.len() ==> !of_currency(fund.currency)(#[trigger] old(self)@.funds[j]));
            },
        }
    }

    /// Takes over the stored states of several funds, one after the other.
    pub fn load_all_fund_states(&mut self, funds: &Vec<CommunityFund>)
        requires
            old(self).wf(),
        ensures
            final(self).wf(),
            final(self)@ == load_each(old(self)@, funds@),
    {
        let mut i: usize = 0;
        while i < funds.len()
            invariant
                i <= funds.len(),
                self.wf(),
                self@ == load_each(old(self)@, funds@.take(i as int)),
            decreases funds.len() - i,
        {
            proof {
                assert(funds@.take(i + 1).drop_last() =~= funds@.take(i as int));
                assert(funds@.take(i + 1).last() == funds@[i as int]);
            }
            self.load_fund_state(funds[i]);
            i = i + 1;
        }
        assert(funds@.take(funds.len() as int) =~= funds@);
    }
}

/// The funds after each of `loaded` was taken over in turn.
pub open spec fn load_each(funds: FundsView, loaded: Seq<CommunityFund>) -> FundsView
    decreases loaded.len(),
{
    if loaded.len() == 0 {
        funds
    } else {
        load_each(funds, loaded.drop_last()).load(loaded.last())
    }
}

/// Replacing the fund of a currency makes it the fund that is found for that
/// currency, and keeps the funds well formed.
pub proof fn lemma_with_fund(funds: FundsView, fund: CommunityFund)
    requires
        funds.wf(),
        funds.fund(fund.currency).is_some(),
    ensures
        funds.with_fund(fund).wf(),
        funds.with_fund(fund).fund(fund.currency) == Some(fund),
{
    let after = funds.with_fund(fund);
    lemma_first_index(funds.funds, of_currency(fund.currency));
    let i = funds.fund_index(fund.currency).unwrap();
    assert(of_currency(fund.currency)(after.funds[i]));
    assert forall|j: int| 0 <= j < i implies !of_currency(fund.currency)(#[trigger] after.funds[j]) by {
        assert(after.funds[j] == funds.funds[j]);
    }
    lemma_first_index_is(after.funds, of_currency(fund.currency), i);
}

/// No more transactions are recorded than there are recipients.
pub proof fn lemma_recorded_ids_len(dht: DhtView, currency: Currency, dids: Seq<Seq<char>>, amount: u64, now: u64)
    ensures
        recorded_ids(dht, currency, dids, amount, now).len() <= dids.len(),
    decreases dids.len(),
{
    if dids.len() > 0 {
        lemma_recorded_ids_len(dht, currency, dids.drop_last(), amount, now);
    }
}

/// Crediting a tax is additive: wherever the credit is accepted, the balance
/// afterwards is the balance before plus the tax, and nothing else about the
/// fund changes. Where it is refused, nothing changes.
pub proof fn lemma_add_tax_is_additive(funds: FundsView, currency: Currency, tax_amount: u64)
    requires
        funds.wf(),
    ensures
        funds.add_tax(currency, tax_amount).wf(),
        funds.add_tax_refusal(currency, tax_amount).is_none() ==> {
            let before = funds.fund(currency).unwrap();
            &&& funds.add_tax(currency, tax_amount).fund(currency) == Some(
                CommunityFund { balance: (before.balance + tax_amount) as u64, ..before },
            )
            &&& funds.add_tax(currency, tax_amount).balance(currency) == funds.balance(currency) + tax_amount
        },
        funds.add_tax_refusal(currency, tax_amount).is_some() ==> funds.add_tax(currency, tax_amount) == funds,
{
    if funds.add_tax_refusal(currency, tax_amount).is_none() {
        lemma_first_index(funds.funds, of_currency(currency));
        let f = funds.fund(currency).unwrap();
        lemma_with_fund(funds, CommunityFund { balance: (f.balance + tax_amount) as u64, ..f });
    }
}

/// A credited tax survives a restart: after the credit, and until the record
/// expires, the store holds the state of the credited fund under the state
/// key of its currency, from which a new manager takes it over.
pub proof fn lemma_credited_tax_is_stored(
    funds: FundsView,
    dht: DhtView,
    currency: Currency,
    tax_amount: u64,
    now: u64,
    later: u64,
    fresh: FundsView,
)
    requires
        funds.wf(),
        dht.wf(),
        fresh.wf(),
        funds.add_tax_refusal(currency, tax_amount).is_none(),
    ensures
        funds.add_tax_record(dht, currency, tax_amount, now).wf(),
        funds.add_tax_record(dht, currency, tax_amount, now).get(state_key(currency), later) == if seconds_between(
            now,
            later,
        ) < FUND_RECORD_TTL_SECONDS {
            Some(text_bytes(fund_state_json(funds.add_tax(currency, tax_amount).fund(currency).unwrap())))
        } else {
            None
        },
        fresh.load(funds.add_tax(currency, tax_amount).fund(currency).unwrap()).balance(currency) == funds.balance(
            currency,
        ) + tax_amount,
{
    let balance_text = text_bytes(decimal((funds.balance(currency) + tax_amount) as nat));
    crate::dht::lemma_store_then_get(dht, balance_key(currency), balance_text, FUND_RECORD_TTL_SECONDS, now, later);
    let first = dht.store(balance_key(currency), balance_text, FUND_RECORD_TTL_SECONDS, now);
    let credited = funds.add_tax(currency, tax_amount).fund(currency).unwrap();
    crate::dht::lemma_store_then_get(
        first,
        state_key(currency),
        text_bytes(fund_state_json(credited)),
        FUND_RECORD_TTL_SECONDS,
        now,
        later,
    );
    lemma_add_tax_is_additive(funds, currency, tax_amount);
    lemma_first_index(funds.funds, of_currency(currency));
    assert(credited.currency == currency);
    lemma_load(fresh, credited);
}

/// A stored state that is taken over is the fund that is found for its
/// currency afterwards, whatever the manager held before.
pub proof fn lemma_load(funds: FundsView, fund: CommunityFund)
    requires
        funds.wf(),
    ensures
        funds.load(fund).wf(),
        funds.load(fund).fund(fund.currency) == Some(fund),
{
    let after = funds.load(fund);
    lemma_first_index(funds.funds, of_currency(fund.currency));
    let i = match funds.fund_index(fund.currency) {
        Some(i) => i,
        None => funds.funds.len() as int,
    };
    assert(of_currency(fund.currency)(after.funds[i]));
    assert forall|j: int| 0 <= j < i implies !of_currency(fund.currency)(#[trigger] after.funds[j]) by {
        assert(after.funds[j] == funds.funds[j]);
    }
    lemma_first_index_is(after.funds, of_currency(fund.currency), i);
}

/// A fund may be distributed exactly when nothing is left to wait for.
pub proof fn lemma_due_when_no_wait(funds: FundsView, currency: Currency, now: u64)
    requires
        funds.wf(),
        funds.fund(currency).is_some(),
    ensures
        funds.due(currency, now) <==> seconds_until_due(
            funds.fund(currency).unwrap().last_distribution,
            funds.distribution_interval,
            now,
        ) == 0,
{
}

/// A distribution pays out no more than the fund held, and the fund is
/// debited by exactly the sum of the recorded transactions. The sum of what
/// the fund has distributed does not go down, and the time of its last
/// distribution moves forward.
pub proof fn lemma_distribution_conserves(funds: FundsView, dht: DhtView, currency: Currency, now: u64)
    requires
        funds.wf(),
        funds.distribution_result(dht, currency, now) is Ok,
    ensures
        funds.distribute(dht, currency, now).wf(),
        ({
            let d = funds.distribution_result(dht, currency, now).unwrap();
            let paid = d.amount_per_user * d.transaction_ids.len();
            let before = funds.fund(currency).unwrap();
            let after = funds.distribute(dht, currency, now).fund(currency).unwrap();
            &&& 0 < d.transaction_ids.len() <= dht.active_dids(now).len()
            &&& paid <= before.balance
            &&& after.balance == before.balance - paid
            &&& after.total_distributed >= before.total_distributed
            &&& after.last_distribution == now
            &&& after.last_distribution > before.last_distribution
            &&& after.distribution_count >= before.distribution_count
        }),
{
    let dids = dht.active_dids(now);
    let d = funds.distribution_result(dht, currency, now).unwrap();
    let before = funds.fund(currency).unwrap();
    let share = funds.share(currency, dids.len());
    let count = d.transaction_ids.len();
    lemma_recorded_ids_len(dht, currency, dids, share, now);
    lemma_first_index(funds.funds, of_currency(currency));
    assert(before.currency == currency);
    assert(share * count <= before.balance) by (nonlinear_arith)
        requires
            share == before.balance as nat / dids.len(),
            0 < count <= dids.len(),
    ;
    lemma_with_fund(funds, FundsView::paid_out(before, share, count, now));
}

/// A distribution that finds no active identity is refused for want of
/// recipients, and changes neither the funds nor the store. This is stated
/// of a fund that exists and is due: before that, the call is refused for
/// those reasons.
pub proof fn lemma_no_recipients(funds: FundsView, dht: DhtView, currency: Currency, now: u64)
    requires
        funds.wf(),
        funds.due(currency, now),
        dht.active_dids(now).len() == 0,
    ensures
        funds.distribution_result(dht, currency, now) == Err::<DistributionView, CoreError>(CoreError::NoRecipients),
        funds.distribute(dht, currency, now) == funds,
        funds.distribute_record(dht, currency, now) == dht,
{
}

/// A distribution whose fund holds less than one unit for each active
/// identity is refused for want of balance, and changes neither the funds
/// nor the store. This is stated of a fund that exists and is due.
pub proof fn lemma_insufficient_balance(funds: FundsView, dht: DhtView, currency: Currency, now: u64)
    requires
        funds.wf(),
        funds.due(currency, now),
        funds.balance(currency) < dht.active_dids(now).len(),
    ensures
        funds.distribution_result(dht, currency, now) == Err::<DistributionView, CoreError>(
            CoreError::InsufficientBalance,
        ),
        funds.distribute(dht, currency, now) == funds,
        funds.distribute_record(dht, currency, now) == dht,
{
    let n = dht.active_dids(now).len();
    let b = funds.balance(currency);
    assert(b as nat / n == 0) by (nonlinear_arith)
        requires
            b < n,
    ;
}

/// Reconciling a fund never raises its balance, lowers what it has
/// distributed, or moves the time of its last distribution back; and a fund
/// that reflects every logged transaction stays as it is.
pub proof fn lemma_reconciled(f: CommunityFund, txs: Seq<LoggedTransaction>)
    ensures
        reconciled(f, txs).currency == f.currency,
        reconciled(f, txs).balance <= f.balance,
        reconciled(f, txs).total_distributed >= f.total_distributed,
        reconciled(f, txs).last_distribution >= f.last_distribution,
        reconciled(f, txs).distribution_count >= f.distribution_count,
        (forall|i: int| 0 <= i < txs.len() ==> (#[trigger] txs[i]).timestamp <= f.last_distribution) ==> reconciled(
            f,
            txs,
        ) == f,
        reconciled(reconciled(f, txs), txs) == reconciled(f, txs),
{
    lemma_latest_since(txs, f.last_distribution);
    lemma_latest_since(txs, latest_since(txs, f.last_distribution));
}

proof fn lemma_latest_since(txs: Seq<LoggedTransaction>, since: u64)
    ensures
        latest_since(txs, since) >= since,
        forall|i: int| 0 <= i < txs.len() ==> (#[trigger] txs[i]).timestamp <= latest_since(txs, since),
        (forall|i: int| 0 <= i < txs.len() ==> (#[trigger] txs[i]).timestamp <= since) ==> latest_since(txs, since)
            == since,
    decreases txs.len(),
{
    if txs.len() > 0 {
        let rest = txs.drop_last();
        lemma_latest_since(rest, since);
        assert forall|i: int| 0 <= i < txs.len() implies (#[trigger] txs[i]).timestamp <= latest_since(txs, since) by {
            if i < rest.len() {
                assert(rest[i] == txs[i]);
            }
        }
        if forall|i: int| 0 <= i < txs.len() ==> (#[trigger] txs[i]).timestamp <= since {
            assert forall|i: int| 0 <= i < rest.len() implies (#[trigger] rest[i]).timestamp <= since by {
                assert(rest[i] == txs[i]);
            }
            assert(txs[txs.len() - 1].timestamp <= since);
        }
    }
}

/// When the distribution transaction that is logged under `key` was made.
pub fn logged_timestamp(key: &str) -> (r: Option<u64>)
    ensures
        r == spec_logged_timestamp(key@),
{
    let chars = chars_of(key);
    match last_position(&chars, '-') {
        Some(i) => parse_digits(&chars, i + 1),
        None => {
            assert(chars@.skip(0) =~= key@);
            parse_digits(&chars, 0)
        },
    }
}

/// The time at which a distribution transaction was made is read back from
/// the key under which it is logged, whoever the recipient.
pub proof fn lemma_logged_timestamp(currency: Currency, did: Seq<char>, now: u64)
    ensures
        spec_logged_timestamp(transaction_key(distribution_tx_id(currency, did, now))) == Some(now),
{
    reveal_strlit("-");
    lemma_decimal_value(now as nat);
    let numeral = decimal(now as nat);
    let head = "community_fund_tx_"@ + ("cf-dist-"@ + currency.spec_symbol_lowercase() + "-"@ + replaced(did, ':', '-'));
    let key = transaction_key(distribution_tx_id(currency, did, now));
    let k = head.len() as int;
    assert(key =~= head + "-"@ + numeral);
    assert(key[k] == '-');
    assert forall|j: int| k < j < key.len() implies key[j] != '-' by {
        assert(key[j] == numeral[j - k - 1]);
        assert(digit_value(numeral[j - k - 1]).is_some());
    }
    lemma_last_index_of(key, '-', k);
    assert(key.skip(k + 1) =~= numeral);
}

/// The text stored for the state of a fund.
pub fn fund_state_text(f: &CommunityFund) -> (s: String)
    ensures
        s@ == fund_state_json(*f),
{
    let mut s = owned("{\"currency\":\"");
    push_text(&mut s, f.currency.symbol());
    push_text(&mut s, "\",\"balance\":");
    push_text(&mut s, json_number(f.balance).unwrap().as_str());
    push_text(&mut s, ",\"last_distribution\":");
    push_text(&mut s, json_number(f.last_distribution).unwrap().as_str());
    push_text(&mut s, ",\"total_distributed\":");
    push_text(&mut s, json_number(f.total_distributed).unwrap().as_str());
    push_text(&mut s, ",\"distribution_count\":");
    push_text(&mut s, json_number(f.distribution_count).unwrap().as_str());
    push_text(&mut s, "}");
    s
}

} // verus!
