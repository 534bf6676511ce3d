//! Parsing and classification of CD subchannel data.
//!
//! A disc stores, beside every sector of audio or data, 96 bytes of
//! subchannel data: eight channels, named P to W, of 12 bytes each. This
//! library turns a raw buffer of such bytes into sectors and channels, and
//! tells whether a sector or a whole disc uses only the two channels of the
//! base standard (P and Q) or the extended ones (R to W) as well.
//!
//! Every function carries a contract over the mathematical model of the
//! data: a channel's bytes as a `Seq<u8>`, a sector as a sequence of eight
//! channels, a disc as a sequence of sectors.

pub mod subcode;
