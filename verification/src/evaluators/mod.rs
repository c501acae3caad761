pub mod end;
pub mod naive;
pub mod null;
