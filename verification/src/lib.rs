use vstd::prelude::*;

pub mod geom;
pub mod text;
pub mod icons;
pub mod chrome;
pub mod events;
pub mod concur;
pub mod files;
pub mod inspector;
pub mod mandel;
pub mod dock;
pub mod workspace;
pub mod state;
pub mod help;
pub mod prefs;
pub mod improv;
pub mod librarian;
pub mod fileviewer;
pub mod paint;
pub mod shell;
pub mod desk;
pub mod menus;
pub mod formula;
pub mod cube;
pub mod browser;
pub mod screen;
pub mod console;
pub mod timers;
pub mod pointer;
pub mod startup;
pub mod actions;
pub mod script;

verus! {
}
