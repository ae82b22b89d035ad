pub mod grid;
pub mod level;
pub mod rank;
pub mod reconcile;
pub mod scan;
pub mod square;
pub mod wall;
