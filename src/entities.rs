pub mod commit;
pub mod lane;
