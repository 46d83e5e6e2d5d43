//! The model runtime manager: keeps the catalog of local and remote models
//! and picks the model for a task, preferring models that run on the device.

use vstd::prelude::*;

verus! {

/// Types of models available in the system.
#[derive(Debug, Clone, Copy, PartialEq, Eq, Structural)]
pub enum ModelType {
    /// Small model for intent classification.
    IntentParser,
    /// On-device speech recognition.
    Asr,
    /// On-device text-to-speech.
    Tts,
    /// Medium model for task planning.
    Planner,
    /// Vision model for UI, file and camera understanding.
    Vision,
    /// Large remote model for complex reasoning (optional).
    RemoteReasoning,
}

/// Hardware target for model execution.
#[derive(Debug, Clone, Copy, PartialEq, Eq, Structural)]
pub enum HardwareTarget {
    Cpu,
    Gpu,
    Npu,
    Dsp,
}

/// Model configuration.
#[derive(Debug, Clone)]
pub struct ModelConfig {
    pub model_type: ModelType,
    pub model_path: Option<String>,
    pub quantization: Option<String>,
    pub hardware_target: HardwareTarget,
    pub max_tokens: usize,
    pub is_local: bool,
}

/// Resource budget for model execution. The battery budget, a percentage per
/// hour written as a 32-bit float, is carried as the float's IEEE 754 bit
/// pattern.
#[derive(Debug, Clone, Copy, PartialEq, Eq, Structural)]
pub struct ResourceBudget {
    pub max_ram_mb: usize,
    pub max_inference_time_ms: u64,
    pub max_battery_percent_per_hour_bits: u32,
}

/// The index of the first model of `ty` in `models` that satisfies `local`
/// when `only_local` is set, or -1.
pub open spec fn first_model(models: Seq<ModelConfig>, ty: ModelType, only_local: bool) -> int
    decreases models.len(),
{
    if models.len() == 0 {
        -1
    } else {
        let i = first_model(models.drop_last(), ty, only_local);
        if i >= 0 {
            i
        } else if models.last().model_type == ty && (!only_local || models.last().is_local) {
            models.len() - 1
        } else {
            -1
        }
    }
}

/// The index of the model chosen for `ty`: the first local model of that
/// type, else the first model of that type, else -1.
pub open spec fn selected_index(models: Seq<ModelConfig>, ty: ModelType) -> int {
    let local = first_model(models, ty, true);
    if local >= 0 {
        local
    } else {
        first_model(models, ty, false)
    }
}

/// The model runtime manager handles the model lifecycle.
pub struct ModelRuntimeManager {
    models: Vec<ModelConfig>,
    budget: ResourceBudget,
}

impl ModelRuntimeManager {
    /// The registered models, in registration order.
    pub closed spec fn models(self) -> Seq<ModelConfig> {
        self.models@
    }

    /// The resource budget.
    pub closed spec fn budget(self) -> ResourceBudget {
        self.budget
    }

    pub fn new(budget: ResourceBudget) -> (manager: Self)
        ensures
            manager.models() == Seq::<ModelConfig>::empty(),
            manager.budget() == budget,
    {
        ModelRuntimeManager { models: Vec::new(), budget }
    }

    /// Register a model configuration.
    pub fn register_model(&mut self, config: ModelConfig)
        ensures
            final(self).models() == old(self).models().push(config),
            final(self).budget() == old(self).budget(),
    {
        self.models.push(config);
    }

    /// Select the model for a task type, preferring local models and falling
    /// back to a remote one.
    pub fn select_model(&self, model_type: &ModelType) -> (r: Option<&ModelConfig>)
        ensures
            match r {
                Some(m) => selected_index(self.models(), *model_type) >= 0 && *m
                    == self.models()[selected_index(self.models(), *model_type)],
                None => selected_index(self.models(), *model_type) < 0,
            },
    {
        proof {
            lemma_first_model(self.models@, *model_type, true);
            lemma_first_model(self.models@, *model_type, false);
        }
        match self.find(model_type, true) {
            Some(i) => Some(&self.models[i]),
            None => match self.find(model_type, false) {
                Some(i) => Some(&self.models[i]),
                None => None,
            },
        }
    }

    /// The index of the first model of `model_type` (local only if
    /// `only_local`).
    fn find(&self, model_type: &ModelType, only_local: bool) -> (r: Option<usize>)
        ensures
            match r {
                Some(i) => first_model(self.models@, *model_type, only_local) == i,
                None => first_model(self.models@, *model_type, only_local) < 0,
            },
    {
        let mut i: usize = 0;
        while i < self.models.len()
            invariant
                i <= self.models@.len(),
                first_model(self.models@.subrange(0, i as int), *model_type, only_local) < 0,
            decreases self.models@.len() - i,
        {
            assert(self.models@.subrange(0, i + 1).drop_last() =~= self.models@.subrange(
                0,
                i as int,
            ));
            let m = &self.models[i];
            if m.model_type == *model_type && (!only_local || m.is_local) {
                proof {
                    lemma_first_model_prefix(self.models@, *model_type, only_local, i + 1);
                }
                return Some(i);
            }
            i = i + 1;
        }
        assert(self.models@.subrange(0, self.models@.len() as int) =~= self.models@);
        None
    }

    /// All registered models, in registration order.
    pub fn available_models(&self) -> (r: &[ModelConfig])
        ensures
            r@ == self.models(),
    {
        self.models.as_slice()
    }
}

/// `first_model` points at a matching model, before which none matches.
pub proof fn lemma_first_model(models: Seq<ModelConfig>, ty: ModelType, only_local: bool)
    ensures
        -1 <= first_model(models, ty, only_local) < models.len(),
        first_model(models, ty, only_local) >= 0 ==> {
            let m = models[first_model(models, ty, only_local)];
            m.model_type == ty && (!only_local || m.is_local)
        },
        forall|j: int|
            0 <= j < models.len() && (j < first_model(models, ty, only_local) || first_model(
                models,
                ty,
                only_local,
            ) < 0) ==> !((#[trigger] models[j]).model_type == ty && (!only_local
                || models[j].is_local)),
    decreases models.len(),
{
    if models.len() > 0 {
        let d = models.drop_last();
        lemma_first_model(d, ty, only_local);
        let f = first_model(models, ty, only_local);
        assert forall|j: int|
            0 <= j < models.len() && (j < f || f < 0) implies !((#[trigger] models[j]).model_type
            == ty && (!only_local || models[j].is_local)) by {
            if j < d.len() {
                assert(d[j] == models[j]);
            }
        }
        if f >= 0 && f < d.len() {
            assert(d[f] == models[f]);
        }
    }
}

/// Once a prefix holds a matching model, the whole list has the same first
/// match.
proof fn lemma_first_model_prefix(models: Seq<ModelConfig>, ty: ModelType, only_local: bool, k: int)
    requires
        0 <= k <= models.len(),
        first_model(models.subrange(0, k), ty, only_local) >= 0,
    ensures
        first_model(models, ty, only_local) == first_model(models.subrange(0, k), ty, only_local),
    decreases models.len() - k,
{
    if k < models.len() {
        assert(models.subrange(0, k + 1).drop_last() =~= models.subrange(0, k));
        lemma_first_model_prefix(models, ty, only_local, k + 1);
    } else {
        assert(models.subrange(0, k) =~= models);
    }
}

/// The selection prefers local models: it finds a model exactly when one of
/// the requested type is registered, the model it finds has that type, and it
/// is a local model whenever a local model of that type is registered.
pub proof fn law_selection_prefers_local(models: Seq<ModelConfig>, ty: ModelType)
    ensures
        (selected_index(models, ty) >= 0) == (exists|j: int|
            0 <= j < models.len() && (#[trigger] models[j]).model_type == ty),
        selected_index(models, ty) >= 0 ==> models[selected_index(models, ty)].model_type == ty,
        (exists|j: int|
            0 <= j < models.len() && (#[trigger] models[j]).model_type == ty && models[j].is_local)
            ==> models[selected_index(models, ty)].is_local,
{
    lemma_first_model(models, ty, true);
    lemma_first_model(models, ty, false);
}

} // verus!
