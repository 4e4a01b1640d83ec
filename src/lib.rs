//! Compile HTML-like templates into immutable render plans and render them,
//! escaped, into output sinks.
//!
//! A template's markup, parsed into a [`plan::Node`] tree, is compiled once by
//! [`compile::compile_template`] into a [`compile::Template`]; binding it to a
//! [`value::Value`] gives a [`renderable::WeftRenderable`] that renders into
//! any [`target::RenderTarget`].

pub mod compile;
pub mod config;
pub mod directive;
pub mod erased;
pub mod error;
pub mod expr;
pub mod laws;
pub mod plan;
pub mod render;
pub mod renderable;
pub mod response;
pub mod scan;
pub mod target;
pub mod text;
pub mod value;
