//! Verified core of a terminal pixel-art editor: styled character cells with
//! half-block compositing, a bounded grid, deterministic drawing tools,
//! symmetry mirroring, transactional undo/redo, and integer color math.

pub mod blocks;
pub mod canvas;
pub mod cell;
pub mod export;
pub mod history;
pub mod input;
pub mod palette;
pub mod project;
pub mod symmetry;
pub mod text;
pub mod tools;
