//! Game science: the offline voice interjection engine and the named
//! flow states. (The floating-point models of flow, engagement and
//! difficulty live with the application.)

pub mod voice;
pub mod flow;
