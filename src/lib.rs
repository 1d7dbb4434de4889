//! Peels five nested encoding layers off an ASCII85-armored puzzle payload.

pub mod armor;
pub mod error;
pub mod layer1;
pub mod layer2;
pub mod layer3;
pub mod layer4;
pub mod layer5;
pub mod pipeline;
