//! Token usage and cost of a session. Amounts are exact, in millionths of a millionth of
//! a dollar.

use vstd::prelude::*;
use vstd::string::StringExecFns;
use crate::api::types::{Usage, UsageView};
use crate::model::{built_in_metadata, known, ModelPricing};
use crate::text;
use crate::text::decimal;

verus! {

/// Amounts in a dollar.
pub const DOLLAR: u128 = 1000000000000;

/// Token usage and cost of a session.
pub struct CostTracker {
    pub input_tokens: u64,
    pub output_tokens: u64,
    pub cache_read_tokens: u64,
    pub cache_creation_tokens: u64,
    /// What providers reported as charged, where they did.
    pub reported: Option<u128>,
    pub pricing: Option<ModelPricing>,
}

impl CostTracker {
    /// Whether usage and a reported charge can be added without overflow.
    pub open spec fn has_room(self, usage: UsageView, charge: Option<u128>) -> bool {
        &&& self.input_tokens + usage.input_tokens <= u64::MAX
        &&& self.output_tokens + usage.output_tokens <= u64::MAX
        &&& self.cache_read_tokens + usage.cache_read_tokens <= u64::MAX
        &&& self.cache_creation_tokens + usage.cache_creation_tokens <= u64::MAX
        &&& (charge matches Some(c) ==> (self.reported matches Some(sum) ==> sum + c <= u128::MAX))
    }

    /// The tracker after usage, and a charge that the provider reported for it.
    pub open spec fn after(self, usage: UsageView, charge: Option<u128>) -> CostTracker {
        CostTracker {
            input_tokens: (self.input_tokens + usage.input_tokens) as u64,
            output_tokens: (self.output_tokens + usage.output_tokens) as u64,
            cache_read_tokens: (self.cache_read_tokens + usage.cache_read_tokens) as u64,
            cache_creation_tokens: (self.cache_creation_tokens + usage.cache_creation_tokens) as u64,
            reported: match charge {
                Some(c) => Some(
                    match self.reported {
                        Some(sum) => (sum + c) as u128,
                        None => c,
                    },
                ),
                None => self.reported,
            },
            pricing: self.pricing,
        }
    }

    /// What the tokens cost by the prices of the model.
    pub open spec fn estimate(self) -> nat {
        match self.pricing {
            Some(p) => (self.input_tokens * p.input + self.output_tokens * p.output
                + self.cache_read_tokens * p.cache_read + self.cache_creation_tokens
                * p.cache_write) as nat,
            None => 0,
        }
    }

    /// What the session cost: what was reported where something was, else the estimate.
    pub open spec fn total(self) -> nat {
        match self.reported {
            Some(sum) => sum as nat,
            None => self.estimate(),
        }
    }
}

/// The usage and cost of a session, in numbers.
#[derive(Debug, Clone, Copy, PartialEq, Eq, Structural)]
pub struct UsageSummary {
    pub input_tokens: u64,
    pub output_tokens: u64,
    pub cache_read_tokens: u64,
    pub cache_creation_tokens: u64,
    pub cost: Option<u128>,
}

/// A number, or the largest that there is.
pub open spec fn capped(n: nat) -> u128 {
    if n <= u128::MAX {
        n as u128
    } else {
        u128::MAX
    }
}

/// The decimals that an amount in dollars is written with: four, and eight for a very small
/// one.
pub open spec fn decimals(amount: u128) -> usize {
    if 0 < amount < 100000000 {
        8
    } else {
        4
    }
}

/// The cost that is shown of a session, with the decimals that it is written with. There is
/// one where something was reported or the prices of the model are known.
pub open spec fn shown(tracker: CostTracker) -> Option<(u128, usize)> {
    if tracker.reported is Some || tracker.pricing is Some {
        let amount = capped(tracker.total());
        Some((amount, decimals(amount)))
    } else {
        None
    }
}

/// What a session cost, in words, given the amount in dollars as it is written.
pub open spec fn cost_text(tracker: CostTracker, amount: Seq<char>) -> Seq<char> {
    if shown(tracker) is Some {
        "$"@ + amount
    } else {
        "unavailable"@
    }
}

/// The usage and cost of a session, in words, given the amount in dollars as it is written.
pub open spec fn summary(tracker: CostTracker, amount: Seq<char>) -> Seq<char> {
    let plain = "Cost: "@ + cost_text(tracker, amount) + " | Tokens: "@ + decimal(
        tracker.input_tokens as nat,
    ) + "in / "@ + decimal(tracker.output_tokens as nat) + "out"@;
    if tracker.cache_read_tokens > 0 {
        plain + " / "@ + decimal(tracker.cache_read_tokens as nat) + "cache"@
    } else {
        plain
    }
}

fn product(tokens: u64, price: u64) -> (r: u128)
    ensures
        r == tokens * price,
{
    proof {
        assert(tokens * price <= 0xffff_ffff_ffff_ffff * 0xffff_ffff_ffff_ffff)
            by (nonlinear_arith)
            requires
                0 <= tokens <= 0xffff_ffff_ffff_ffff,
                0 <= price <= 0xffff_ffff_ffff_ffff,
        ;
    }
    (tokens as u128) * (price as u128)
}

impl CostTracker {
    /// A tracker of nothing, with the prices of a model.
    pub fn new(model: &str) -> (r: CostTracker)
        ensures
            r == (CostTracker {
                input_tokens: 0,
                output_tokens: 0,
                cache_read_tokens: 0,
                cache_creation_tokens: 0,
                reported: None,
                pricing: known(model@).pricing,
            }),
    {
        CostTracker {
            input_tokens: 0,
            output_tokens: 0,
            cache_read_tokens: 0,
            cache_creation_tokens: 0,
            reported: None,
            pricing: built_in_metadata(model).pricing,
        }
    }

    /// Sets the prices, where there are any.
    pub fn set_pricing_override(&mut self, pricing: Option<ModelPricing>)
        ensures
            *final(self) == (CostTracker {
                pricing: match pricing {
                    Some(p) => Some(p),
                    None => old(self).pricing,
                },
                ..*old(self)
            }),
    {
        if pricing.is_some() {
            self.pricing = pricing;
        }
    }

    /// Whether usage and a reported charge can be added without overflow.
    pub fn can_add(&self, usage: &Usage, charge: Option<u128>) -> (r: bool)
        ensures
            r == self.has_room(usage@, charge),
    {
        let room = self.input_tokens <= u64::MAX - usage.input_tokens as u64 && self.output_tokens
            <= u64::MAX - usage.output_tokens as u64 && self.cache_read_tokens <= u64::MAX
            - usage.cache_read_tokens as u64 && self.cache_creation_tokens <= u64::MAX
            - usage.cache_creation_tokens as u64;
        let charge_fits = match (charge, self.reported) {
            (Some(c), Some(sum)) => sum <= u128::MAX - c,
            _ => true,
        };
        room && charge_fits
    }

    /// Adds usage, and the charge that the provider reported for it.
    pub fn add_usage(&mut self, usage: &Usage, charge: Option<u128>)
        requires
            old(self).has_room(usage@, charge),
        ensures
            *final(self) == old(self).after(usage@, charge),
    {
        self.input_tokens = self.input_tokens + usage.input_tokens as u64;
        self.output_tokens = self.output_tokens + usage.output_tokens as u64;
        self.cache_read_tokens = self.cache_read_tokens + usage.cache_read_tokens as u64;
        self.cache_creation_tokens = self.cache_creation_tokens + usage.cache_creation_tokens as u64;
        match charge {
            Some(c) => {
                self.reported = match self.reported {
                    Some(sum) => Some(sum + c),
                    None => Some(c),
                };
            },
            None => {},
        }
    }

    /// Clears the usage; the prices stay.
    pub fn reset_usage(&mut self)
        ensures
            *final(self) == (CostTracker {
                input_tokens: 0,
                output_tokens: 0,
                cache_read_tokens: 0,
                cache_creation_tokens: 0,
                reported: None,
                pricing: old(self).pricing,
            }),
    {
        self.input_tokens = 0;
        self.output_tokens = 0;
        self.cache_read_tokens = 0;
        self.cache_creation_tokens = 0;
        self.reported = None;
    }

    /// What the session cost: what was reported where something was, else an estimate.
    pub fn total_cost(&self) -> (r: u128)
        ensures
            r == capped(self.total()),
    {
        match self.reported {
            Some(sum) => sum,
            None => match self.pricing {
                Some(p) => {
                    let a = product(self.input_tokens, p.input);
                    let b = product(self.output_tokens, p.output);
                    let c = product(self.cache_read_tokens, p.cache_read);
                    let d = product(self.cache_creation_tokens, p.cache_write);
                    a.saturating_add(b).saturating_add(c).saturating_add(d)
                },
                None => 0,
            },
        }
    }

    /// The usage and cost of the session, in numbers. There is a cost where one was
    /// reported or the prices of the model are known.
    pub fn usage_summary(&self) -> (r: UsageSummary)
        ensures
            r == (UsageSummary {
                input_tokens: self.input_tokens,
                output_tokens: self.output_tokens,
                cache_read_tokens: self.cache_read_tokens,
                cache_creation_tokens: self.cache_creation_tokens,
                cost: if self.reported is Some || self.pricing is Some {
                    Some(capped(self.total()))
                } else {
                    None
                },
            }),
    {
        let cost = if self.reported.is_some() || self.pricing.is_some() {
            Some(self.total_cost())
        } else {
            None
        };
        UsageSummary {
            input_tokens: self.input_tokens,
            output_tokens: self.output_tokens,
            cache_read_tokens: self.cache_read_tokens,
            cache_creation_tokens: self.cache_creation_tokens,
            cost,
        }
    }

    /// The cost that is shown of the session, with the decimals that it is written with.
    /// There is one where something was reported or the prices of the model are known.
    pub fn shown_cost(&self) -> (r: Option<(u128, usize)>)
        ensures
            r == shown(*self),
    {
        if self.reported.is_some() || self.pricing.is_some() {
            let amount = self.total_cost();
            let places: usize = if amount > 0 && amount < 100000000 {
                8
            } else {
                4
            };
            Some((amount, places))
        } else {
            None
        }
    }

    /// The usage and cost of the session, in words. The amount is the shown cost in dollars,
    /// written with its decimals.
    pub fn format_summary(&self, amount: &str) -> (r: String)
        ensures
            r@ == summary(*self, amount@),
    {
        let mut out = "Cost: ".to_owned();
        let mut cost = "unavailable".to_owned();
        if self.shown_cost().is_some() {
            cost = "$".to_owned();
            cost.append(amount);
        }
        out.append(cost.as_str());
        out.append(" | Tokens: ");
        text::push_decimal(&mut out, self.input_tokens);
        out.append("in / ");
        text::push_decimal(&mut out, self.output_tokens);
        out.append("out");
        if self.cache_read_tokens > 0 {
            out.append(" / ");
            text::push_decimal(&mut out, self.cache_read_tokens);
            out.append("cache");
        }
        out
    }
}

/// The usage of responses, each with the charge that the provider reported for it.
pub type Usages = Seq<(UsageView, Option<u128>)>;

/// The tokens of one sort that responses used.
pub open spec fn tokens(usages: Usages, of: spec_fn(UsageView) -> int) -> int
    decreases usages.len(),
{
    if usages.len() == 0 {
        0
    } else {
        tokens(usages.drop_last(), of) + of(usages.last().0)
    }
}

/// What providers charged for responses.
pub open spec fn charges(usages: Usages) -> nat
    decreases usages.len(),
{
    if usages.len() == 0 {
        0
    } else {
        charges(usages.drop_last()) + match usages.last().1 {
            Some(charge) => charge as nat,
            None => 0,
        }
    }
}

/// Whether a provider reported a charge for one of some responses.
pub open spec fn is_charged(usages: Usages) -> bool {
    exists|i: int| 0 <= i < usages.len() && (#[trigger] usages[i]).1 is Some
}

impl CostTracker {
    /// The tracker after responses in turn.
    pub open spec fn after_all(self, usages: Usages) -> CostTracker
        decreases usages.len(),
    {
        if usages.len() == 0 {
            self
        } else {
            self.after_all(usages.drop_last()).after(usages.last().0, usages.last().1)
        }
    }

    /// Whether responses can be added in turn without overflow.
    pub open spec fn has_room_for(self, usages: Usages) -> bool
        decreases usages.len(),
    {
        usages.len() == 0 || self.has_room_for(usages.drop_last()) && self.after_all(
            usages.drop_last(),
        ).has_room(usages.last().0, usages.last().1)
    }
}

proof fn lemma_charged_last(usages: Usages)
    requires
        usages.len() > 0,
    ensures
        is_charged(usages) <==> is_charged(usages.drop_last()) || usages.last().1 is Some,
{
    let init = usages.drop_last();
    if is_charged(init) {
        let i = choose|i: int| 0 <= i < init.len() && (#[trigger] init[i]).1 is Some;
        assert(usages[i] == init[i]);
    }
    if is_charged(usages) {
        let i = choose|i: int| 0 <= i < usages.len() && (#[trigger] usages[i]).1 is Some;
        if i < init.len() {
            assert(init[i] == usages[i]);
        }
    }
    assert(usages[usages.len() - 1] == usages.last());
}

/// Usage adds up, over any number of responses: the counters hold what was there and what
/// every response used, and what is reported is the sum of all charges that were reported.
pub proof fn law_usage_adds_up(tracker: CostTracker, usages: Usages)
    requires
        tracker.has_room_for(usages),
    ensures
        ({
            let after = tracker.after_all(usages);
            &&& after.input_tokens == tracker.input_tokens + tokens(
                usages,
                |u: UsageView| u.input_tokens as int,
            )
            &&& after.output_tokens == tracker.output_tokens + tokens(
                usages,
                |u: UsageView| u.output_tokens as int,
            )
            &&& after.cache_read_tokens == tracker.cache_read_tokens + tokens(
                usages,
                |u: UsageView| u.cache_read_tokens as int,
            )
            &&& after.cache_creation_tokens == tracker.cache_creation_tokens + tokens(
                usages,
                |u: UsageView| u.cache_creation_tokens as int,
            )
            &&& after.pricing == tracker.pricing
            &&& after.reported is Some <==> tracker.reported is Some || is_charged(usages)
            &&& after.reported is Some ==> after.reported->Some_0 == charges(usages) + match
                tracker.reported {
                Some(sum) => sum as nat,
                None => 0,
            }
        }),
    decreases usages.len(),
{
    if usages.len() > 0 {
        law_usage_adds_up(tracker, usages.drop_last());
        lemma_charged_last(usages);
        lemma_uncharged(usages.drop_last());
    }
}

proof fn lemma_uncharged(usages: Usages)
    ensures
        !is_charged(usages) ==> charges(usages) == 0,
    decreases usages.len(),
{
    if usages.len() > 0 {
        lemma_charged_last(usages);
        lemma_uncharged(usages.drop_last());
    }
}

/// What a session costs, whatever came in: the sum of the charges that were reported, where
/// any was; else nothing without prices, and with prices the price of all tokens.
pub proof fn law_total_cost(tracker: CostTracker, usages: Usages)
    requires
        tracker.input_tokens == 0,
        tracker.output_tokens == 0,
        tracker.cache_read_tokens == 0,
        tracker.cache_creation_tokens == 0,
        tracker.reported is None,
        tracker.has_room_for(usages),
    ensures
        tracker.after_all(usages).total() == if is_charged(usages) {
            charges(usages) as int
        } else {
            match tracker.pricing {
                Some(p) => tokens(usages, |u: UsageView| u.input_tokens as int) * p.input + tokens(
                    usages,
                    |u: UsageView| u.output_tokens as int,
                ) * p.output + tokens(usages, |u: UsageView| u.cache_read_tokens as int)
                    * p.cache_read + tokens(usages, |u: UsageView| u.cache_creation_tokens as int)
                    * p.cache_write,
                None => 0,
            }
        },
{
    law_usage_adds_up(tracker, usages);
    let after = tracker.after_all(usages);
    if after.reported is None && after.pricing is Some {
        let p = after.pricing->Some_0;
        assert(after.input_tokens * p.input >= 0) by (nonlinear_arith);
        assert(after.output_tokens * p.output >= 0) by (nonlinear_arith);
        assert(after.cache_read_tokens * p.cache_read >= 0) by (nonlinear_arith);
        assert(after.cache_creation_tokens * p.cache_write >= 0) by (nonlinear_arith);
    }
}

} // verus!
