pub mod catalog;
pub mod extract;
pub mod hash;
pub mod reconcile;
pub mod report;
pub mod tencent;
pub mod text;
pub mod translate;
