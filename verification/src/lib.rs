//! A library for hunting down a storefront's not-yet-linked promotional
//! banner image and for listing its discounted whiskeys.
//!
//! The heart is the banner discovery: from one observed banner path a
//! set of candidate asset paths is generated (`candidates`), a probe
//! template is derived from the first banner (`template`), and a state
//! machine (`deal`) sweeps first the known banners and then the brand
//! names of the product feed, stopping early on the first hit when so
//! asked. All path rewriting, brand normalization and ordering, and the
//! sweep's sequencing are specified and proved here; the network calls
//! that feed and drive the machine live with the caller.
pub mod brands;
pub mod candidates;
pub mod chars;
pub mod deal;
pub mod offers;
pub mod template;
