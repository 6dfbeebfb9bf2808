//! Limits that the connection loop reads before it allocates and listens.

use vstd::prelude::*;

verus! {

#[derive(Debug, Clone, Copy, Default)]
pub struct Config {
    pub max_headers: u32,
    pub max_header_len_kb: usize,
    pub max_body_kb: usize,
    pub read_timeout_s: u32,
    pub keep_alive_s: u32,
}

impl Config {
    /// The limits of an application that was given none.
    pub open spec fn defaults() -> Config {
        Config {
            max_headers: 32,
            max_header_len_kb: 8,
            max_body_kb: 1024,
            read_timeout_s: 5,
            keep_alive_s: 5,
        }
    }

    pub fn new() -> (c: Config)
        ensures
            c == Config::defaults(),
    {
        Config {
            max_headers: 32,
            max_header_len_kb: 8,
            max_body_kb: 1024,
            read_timeout_s: 5,
            keep_alive_s: 5,
        }
    }

    /// The number of bytes in `value_kb` kilobytes.
    pub fn get_kb_value(value_kb: usize) -> (bytes: usize)
        requires
            value_kb * 1024 <= usize::MAX,
        ensures
            bytes == value_kb * 1024,
    {
        value_kb * 1024
    }

    /// The number of bytes in `value_kb` kilobytes, if a `usize` holds it.
    pub fn kb_value(value_kb: usize) -> (bytes: Option<usize>)
        ensures
            bytes is Some == (value_kb * 1024 <= usize::MAX),
            bytes is Some ==> bytes.unwrap() == value_kb * 1024,
    {
        if value_kb <= usize::MAX / 1024 {
            Some(Config::get_kb_value(value_kb))
        } else {
            None
        }
    }
}

} // verus!
