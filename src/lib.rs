pub mod color;
pub mod commit;
pub mod edge;
pub mod entities;
pub mod garph;
pub mod history_oid;
pub mod lane;
pub mod menu;
pub mod oid;
pub mod point;
pub mod title;
pub mod workspace;
