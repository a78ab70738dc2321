pub mod account;
pub mod alias;
pub mod concept;
pub mod decimal;
pub mod fact;
pub mod footing;
pub mod money;
pub mod statement;
pub mod taxonomy;
pub mod table;
pub mod ratio;
pub mod grid;
pub mod calc_tree;
