//! Half-step drive for a four-wire stepper motor.
//!
//! A rotation is prepared with [`rotate::rotate`] or
//! [`rotate::rotate_degrees`] and then advanced one action at a time: each
//! call of [`rotate::Rotation::advance`] reports how the last action went
//! and hands out the next one for the caller to carry out on the pins, until
//! the action is [`plan::Action::Finish`]. The library itself touches no
//! hardware and never sleeps.
//!
//! [`plan::plan`] says which actions a rotation consists of, and
//! [`model::RotationView::step`] how the engine walks through them and
//! reacts to a failure while the pins are acquired.

pub mod convert;
pub mod sequence;
pub mod plan;
pub mod model;
pub mod rotate;
