pub mod condition;
pub mod condition_learner;
pub mod effect;
pub mod effect_learner;
pub mod hypothesis;
pub mod mcelearner;
pub mod reward;
pub mod reward_classes;
pub mod term;
