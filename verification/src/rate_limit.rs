//! The clocks that space out the calls to the outside services: for each
//! service the time at which it is free again. A call waits until then and
//! moves that time on by what the call is expected to take.
//!
//! Times are milliseconds since the Unix epoch; waits are whole seconds.
//! The caller reads the clock of the system and hands the time in.

use crate::messages::{IMAGE_GEN_TIMEOUT_SECS, PROMPT_GEN_TIMEOUT_SECS};
use vstd::prelude::*;

verus! {

/// Where the outside services are and how to call them.
#[derive(Debug)]
pub struct AzureEndpointInfo {
    pub image_gen_endpoint: String,
    pub image_gen_key: String,
    pub completions_endpoint: String,
    pub completions_key: String,
}

impl Clone for AzureEndpointInfo {
    fn clone(&self) -> (r: Self)
        ensures
            r.image_gen_endpoint@ == self.image_gen_endpoint@,
            r.image_gen_key@ == self.image_gen_key@,
            r.completions_endpoint@ == self.completions_endpoint@,
            r.completions_key@ == self.completions_key@,
    {
        AzureEndpointInfo {
            image_gen_endpoint: self.image_gen_endpoint.clone(),
            image_gen_key: self.image_gen_key.clone(),
            completions_endpoint: self.completions_endpoint.clone(),
            completions_key: self.completions_key.clone(),
        }
    }
}

impl Default for AzureEndpointInfo {
    fn default() -> (r: Self)
        ensures
            r.image_gen_endpoint@.len() == 0,
            r.image_gen_key@.len() == 0,
            r.completions_endpoint@.len() == 0,
            r.completions_key@.len() == 0,
    {
        AzureEndpointInfo {
            image_gen_endpoint: String::new(),
            image_gen_key: String::new(),
            completions_endpoint: String::new(),
            completions_key: String::new(),
        }
    }
}

/// What the whole server shares: the two clocks and the endpoints.
#[derive(Debug)]
pub struct GlobalServerValues {
    /// When the image service is free again.
    pub next_available_image_server_time: i64,
    /// When the text service is free again.
    pub next_available_prompt_server_time: i64,
    pub endpoint_info: AzureEndpointInfo,
}

impl Default for GlobalServerValues {
    fn default() -> (r: Self)
        ensures
            r.next_available_image_server_time == 0,
            r.next_available_prompt_server_time == 0,
    {
        GlobalServerValues {
            next_available_image_server_time: 0,
            next_available_prompt_server_time: 0,
            endpoint_info: AzureEndpointInfo::default(),
        }
    }
}

/// Whole seconds that a call at `now` waits for a service that is free at
/// `server_time`.
pub open spec fn wait_seconds(server_time: int, now: int) -> int {
    if server_time <= now {
        0
    } else {
        (server_time - now) / 1000
    }
}

/// When a service is free again after a call at `now` that takes `seconds`.
pub open spec fn advanced(server_time: int, now: int, seconds: int) -> int {
    (if server_time <= now {
        now
    } else {
        server_time
    }) + seconds * 1000
}

/// Whether the clock can be moved on by `time_to_increment` seconds for a
/// call at `now`.
pub fn can_increment(server_time: i64, now: i64, time_to_increment: u64) -> (b: bool)
    ensures
        b == (advanced(server_time as int, now as int, time_to_increment as int) <= i64::MAX),
{
    let base: i128 = if server_time <= now {
        now as i128
    } else {
        server_time as i128
    };
    base + (time_to_increment as i128) * 1000 <= i64::MAX as i128
}

/// Books a call at `now` that takes `time_to_increment` seconds: says how
/// many seconds the call has to wait, and moves the clock on.
pub fn increment_server_time_at(server_time: &mut i64, now: i64, time_to_increment: u64) -> (wait:
    i64)
    requires
        advanced(*old(server_time) as int, now as int, time_to_increment as int) <= i64::MAX,
    ensures
        wait == wait_seconds(*old(server_time) as int, now as int),
        *final(server_time) == advanced(*old(server_time) as int, now as int, time_to_increment as int),
{
    if *server_time < now {
        *server_time = now;
    }
    let time_to_wait = ((*server_time as i128 - now as i128) / 1000) as i64;
    let next: i128 = *server_time as i128 + (time_to_increment as i128) * 1000;
    *server_time = next as i64;
    time_to_wait
}

/// Books a call at `now` that takes `time_to_increment` seconds, where the
/// clock can be moved on that far: says how many seconds the call has to
/// wait, and moves the clock on. Where it cannot, nothing is booked and
/// nothing handed back.
pub fn increment_server_time(server_time: &mut i64, now: i64, time_to_increment: u64) -> (r:
    Option<i64>)
    ensures
        r is Some <==> advanced(*old(server_time) as int, now as int, time_to_increment as int)
            <= i64::MAX,
        match r {
            Some(wait) => {
                &&& wait == wait_seconds(*old(server_time) as int, now as int)
                &&& *final(server_time) == advanced(
                    *old(server_time) as int,
                    now as int,
                    time_to_increment as int,
                )
            },
            None => *final(server_time) == *old(server_time),
        },
{
    if can_increment(*server_time, now, time_to_increment) {
        Some(increment_server_time_at(server_time, now, time_to_increment))
    } else {
        None
    }
}

impl GlobalServerValues {
    /// Books `calls` calls to the text service in a row at `now`: says how
    /// many seconds the first has to wait for the service, and moves the
    /// time at which the service is free again on by what the calls take,
    /// counted from that time or from `now`, whichever is later. Nothing
    /// else changes. Where the clock cannot be moved on that far, nothing
    /// is booked and nothing handed back.
    pub fn reserve_prompt_calls(&mut self, now: i64, calls: u32) -> (r: Option<i64>)
        ensures
            final(self).next_available_image_server_time == old(
                self,
            ).next_available_image_server_time,
            final(self).endpoint_info == old(self).endpoint_info,
            r is Some <==> advanced(
                old(self).next_available_prompt_server_time as int,
                now as int,
                PROMPT_GEN_TIMEOUT_SECS * calls,
            ) <= i64::MAX,
            match r {
                Some(wait) => {
                    &&& wait == wait_seconds(
                        old(self).next_available_prompt_server_time as int,
                        now as int,
                    )
                    &&& final(self).next_available_prompt_server_time == advanced(
                        old(self).next_available_prompt_server_time as int,
                        now as int,
                        PROMPT_GEN_TIMEOUT_SECS * calls,
                    )
                },
                None => final(self).next_available_prompt_server_time == old(
                    self,
                ).next_available_prompt_server_time,
            },
    {
        let mut clock = self.next_available_prompt_server_time;
        let r = increment_server_time(&mut clock, now, PROMPT_GEN_TIMEOUT_SECS * (calls as u64));
        self.next_available_prompt_server_time = clock;
        r
    }

    /// Books one call to the image service at `now`: says how many seconds
    /// the call has to wait for the service, and moves the time at which
    /// the service is free again on by what a picture takes, counted from
    /// that time or from `now`, whichever is later. Nothing else changes.
    /// Where the clock cannot be moved on that far, nothing is booked and
    /// nothing handed back.
    pub fn reserve_image_call(&mut self, now: i64) -> (r: Option<i64>)
        ensures
            final(self).next_available_prompt_server_time == old(
                self,
            ).next_available_prompt_server_time,
            final(self).endpoint_info == old(self).endpoint_info,
            r is Some <==> advanced(
                old(self).next_available_image_server_time as int,
                now as int,
                IMAGE_GEN_TIMEOUT_SECS as int,
            ) <= i64::MAX,
            match r {
                Some(wait) => {
                    &&& wait == wait_seconds(
                        old(self).next_available_image_server_time as int,
                        now as int,
                    )
                    &&& final(self).next_available_image_server_time == advanced(
                        old(self).next_available_image_server_time as int,
                        now as int,
                        IMAGE_GEN_TIMEOUT_SECS as int,
                    )
                },
                None => final(self).next_available_image_server_time == old(
                    self,
                ).next_available_image_server_time,
            },
    {
        let mut clock = self.next_available_image_server_time;
        let r = increment_server_time(&mut clock, now, IMAGE_GEN_TIMEOUT_SECS);
        self.next_available_image_server_time = clock;
        r
    }
}

/// A call never waits a negative time, and a call at or after the time at
/// which the service is free does not wait at all.
pub proof fn lemma_wait_seconds(server_time: int, now: int)
    ensures
        wait_seconds(server_time, now) >= 0,
        now >= server_time ==> wait_seconds(server_time, now) == 0,
        wait_seconds(server_time, now) * 1000 <= if server_time <= now {
            0
        } else {
            server_time - now
        },
{
}

/// Calls booked one after the other are served one after the other: a
/// call that is booked no earlier than another starts no earlier than the
/// other is expected to end, but for the part of a second that a wait in
/// whole seconds leaves out.
pub proof fn lemma_calls_do_not_overlap(server_time: int, first: int, seconds: int, second: int)
    requires
        seconds >= 0,
        first <= second,
    ensures
        second + wait_seconds(advanced(server_time, first, seconds), second) * 1000 > advanced(
            server_time,
            first,
            seconds,
        ) - 1000,
        advanced(advanced(server_time, first, seconds), second, seconds) >= advanced(
            server_time,
            first,
            seconds,
        ) + seconds * 1000,
{
}

} // verus!
