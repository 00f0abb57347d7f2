//! Optimizers, gradient clipping, loss scaling and learning rate schedules.

pub mod adadelta;
pub mod adagrad;
pub mod adam;
pub mod adamax;
pub mod adamw;
pub mod amp;
pub mod clip;
pub mod direction;
pub mod flat;
pub mod lamb;
pub mod lbfgs;
pub mod line_search;
pub mod lr_scheduler;
pub mod nadam;
pub mod param_group;
pub mod radam;
pub mod reduce_lr_on_plateau;
pub mod rmsprop;
pub mod slots;
pub mod state_dict;
pub mod trace;
