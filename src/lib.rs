//! Builds a static lesson site from numbered sections of markdown lessons:
//! the outline of sections and lessons, the shared sidebar, and each page.
//! Beside it, small routines on lists of numbers, cities and points.
pub mod naming;
pub mod ordering;
pub mod outline;
pub mod nav;
pub mod page;
pub mod numbers;
pub mod handback;
pub mod city;
pub mod point;
