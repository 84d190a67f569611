//! What is known of models: the size of their context window and their prices.

use vstd::prelude::*;
use crate::text;
use crate::text::occurs;

verus! {

/// The prices of a model, in millionths of a dollar for a million tokens.
#[derive(Debug, Clone, Copy, PartialEq, Eq, Structural)]
pub struct ModelPricing {
    pub input: u64,
    pub output: u64,
    pub cache_read: u64,
    pub cache_write: u64,
}

/// What is known of a model.
#[derive(Debug, Clone, Copy, PartialEq, Eq, Structural)]
pub struct ModelMetadata {
    pub context_window: usize,
    pub pricing: Option<ModelPricing>,
}

impl ModelMetadata {
    /// What is known, where it is not overridden. A context window of zero overrides
    /// nothing.
    pub open spec fn overridden(
        self,
        context_window: Option<usize>,
        pricing: Option<ModelPricing>,
    ) -> ModelMetadata {
        ModelMetadata {
            context_window: match context_window {
                Some(window) => if window > 0 {
                    window
                } else {
                    self.context_window
                },
                None => self.context_window,
            },
            pricing: match pricing {
                Some(p) => Some(p),
                None => self.pricing,
            },
        }
    }

    /// What is known, where it is not overridden.
    pub fn with_overrides(self, context_window: Option<usize>, pricing: Option<ModelPricing>) -> (r:
        ModelMetadata)
        ensures
            r == self.overridden(context_window, pricing),
    {
        let window = match context_window {
            Some(w) => if w > 0 {
                w
            } else {
                self.context_window
            },
            None => self.context_window,
        };
        let price = match pricing {
            Some(p) => Some(p),
            None => self.pricing,
        };
        ModelMetadata { context_window: window, pricing: price }
    }
}

/// Prices in order.
pub open spec fn prices(input: u64, output: u64, cache_read: u64, cache_write: u64) -> Option<
    ModelPricing,
> {
    Some(ModelPricing { input, output, cache_read, cache_write })
}

/// Prices in order.
pub fn pricing(input: u64, output: u64, cache_read: u64, cache_write: u64) -> (r: Option<
    ModelPricing,
>)
    ensures
        r == prices(input, output, cache_read, cache_write),
{
    Some(ModelPricing { input, output, cache_read, cache_write })
}

/// What is known of a model by its name: the first family whose name occurs in it.
pub open spec fn known(model: Seq<char>) -> ModelMetadata {
    let (context_window, pricing): (usize, Option<ModelPricing>) = if model == "gpt-5.6"@ || occurs(
        "gpt-5.6-sol"@,
        model,
    ) {
        (1050000, prices(5000000, 30000000, 500000, 6250000))
    } else if occurs("gpt-5.6-terra"@, model) {
        (1050000, prices(2500000, 15000000, 250000, 3125000))
    } else if occurs("gpt-5.6-luna"@, model) {
        (1050000, prices(1000000, 6000000, 100000, 1250000))
    } else if occurs("gpt-5.6"@, model) {
        (1050000, None)
    } else if occurs("gpt-5.3-codex"@, model) || occurs("gpt-5.2-codex"@, model) {
        (400000, prices(1750000, 14000000, 175000, 2187500))
    } else if occurs("gpt-5.1-codex"@, model) || occurs("gpt-5-codex"@, model) {
        (400000, None)
    } else if occurs("opus"@, model) {
        (200000, prices(15000000, 75000000, 1500000, 18750000))
    } else if occurs("sonnet"@, model) {
        (200000, prices(3000000, 15000000, 300000, 3750000))
    } else if occurs("haiku"@, model) {
        (200000, prices(250000, 1250000, 25000, 300000))
    } else if occurs("gpt-4o"@, model) || occurs("gpt-4"@, model) {
        (128000, None)
    } else if occurs("gpt-3.5"@, model) {
        (16000, None)
    } else {
        (128000, None)
    };
    ModelMetadata { context_window, pricing }
}

/// What is known of a model by its name; a conservative window for other models.
pub fn built_in_metadata(model: &str) -> (r: ModelMetadata)
    ensures
        r == known(model@),
{
    let (context_window, price): (usize, Option<ModelPricing>) = if text::same(model, "gpt-5.6")
        || text::contains(model, "gpt-5.6-sol") {
        (1050000, pricing(5000000, 30000000, 500000, 6250000))
    } else if text::contains(model, "gpt-5.6-terra") {
        (1050000, pricing(2500000, 15000000, 250000, 3125000))
    } else if text::contains(model, "gpt-5.6-luna") {
        (1050000, pricing(1000000, 6000000, 100000, 1250000))
    } else if text::contains(model, "gpt-5.6") {
        (1050000, None)
    } else if text::contains(model, "gpt-5.3-codex") || text::contains(model, "gpt-5.2-codex") {
        (400000, pricing(1750000, 14000000, 175000, 2187500))
    } else if text::contains(model, "gpt-5.1-codex") || text::contains(model, "gpt-5-codex") {
        (400000, None)
    } else if text::contains(model, "opus") {
        (200000, pricing(15000000, 75000000, 1500000, 18750000))
    } else if text::contains(model, "sonnet") {
        (200000, pricing(3000000, 15000000, 300000, 3750000))
    } else if text::contains(model, "haiku") {
        (200000, pricing(250000, 1250000, 25000, 300000))
    } else if text::contains(model, "gpt-4o") || text::contains(model, "gpt-4") {
        (128000, None)
    } else if text::contains(model, "gpt-3.5") {
        (16000, None)
    } else {
        (128000, None)
    };
    ModelMetadata { context_window, pricing: price }
}

} // verus!
