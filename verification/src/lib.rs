//! Client-side core of a game's score board: the ranked local score cache, the
//! sanitizers that gate every outbound submission, the daily-challenge attempt
//! bookkeeping and the streak badges derived from accepted daily completions.

pub mod badge;
pub mod cache;
pub mod calendar;
pub mod daily;
pub mod device;
pub mod errors;
pub mod exchange;
pub mod json;
pub mod records;
pub mod registry;
pub mod replay;
pub mod sanitize;
pub mod text;
