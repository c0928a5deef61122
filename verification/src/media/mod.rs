//! Media routing by SSRC.

pub mod router;
pub mod track;
