//! What the events mean for a request that waits for its answer.

use vstd::prelude::*;
use super::error::Error;
use super::types::{Device, Event, ResultCode};

verus! {

/// Whether a wait is over, and what it came to.
#[derive(Debug)]
pub enum Wait<T> {
    More,
    Over(Result<T, Error>),
}

/// Waits for the list of devices.
pub fn on_list(tag: u32, event: Event) -> (wait: Wait<Vec<Device>>)
    ensures
        match event {
            Event::DeviceList(devs) => wait == Wait::Over(Ok::<Vec<Device>, Error>(devs)),
            Event::RequestFailed { tag: t, .. } => if t == tag {
                wait == Wait::Over(
                    Err::<Vec<Device>, Error>(Error::RequestFailed(ResultCode::BadDevice)),
                )
            } else {
                wait is More
            },
            _ => wait is More,
        },
{
    match event {
        Event::DeviceList(devs) => Wait::Over(Ok(devs)),
        Event::RequestFailed { tag: t, .. } => if t == tag {
            Wait::Over(Err(Error::RequestFailed(ResultCode::BadDevice)))
        } else {
            Wait::More
        },
        _ => Wait::More,
    }
}

/// Waits for the identifier of the host.
pub fn on_buid(event: Event) -> (wait: Wait<String>)
    ensures
        match event {
            Event::Buid(b) => wait == Wait::Over(Ok::<String, Error>(b)),
            _ => wait is More,
        },
{
    match event {
        Event::Buid(b) => Wait::Over(Ok(b)),
        _ => Wait::More,
    }
}

/// Waits for a pair record.
pub fn on_pair_record(event: Event) -> (wait: Wait<Vec<u8>>)
    ensures
        match event {
            Event::PairRecord { record, .. } => wait == Wait::Over(Ok::<Vec<u8>, Error>(record)),
            _ => wait is More,
        },
{
    match event {
        Event::PairRecord { record, .. } => Wait::Over(Ok(record)),
        _ => Wait::More,
    }
}

/// Takes the first event as the answer to a change of a pair record.
pub fn on_record_changed(event: Event) -> (done: Result<(), Error>)
    ensures
        match event {
            Event::RequestFailed { .. } => done == Err::<(), Error>(
                Error::RequestFailed(ResultCode::BadDevice),
            ),
            _ => done == Ok::<(), Error>(()),
        },
{
    match event {
        Event::RequestFailed { .. } => Err(Error::RequestFailed(ResultCode::BadDevice)),
        _ => Ok(()),
    }
}

/// Waits for a connection to a device.
pub fn on_tunnel(tag: u32, event: Event) -> (wait: Wait<()>)
    ensures
        match event {
            Event::Connected { tag: t } => if t == tag {
                wait == Wait::Over(Ok::<(), Error>(()))
            } else {
                wait is More
            },
            Event::RequestFailed { code, .. } => wait == Wait::Over(
                Err::<(), Error>(Error::RequestFailed(code)),
            ),
            _ => wait is More,
        },
{
    match event {
        Event::Connected { tag: t } => if t == tag {
            Wait::Over(Ok(()))
        } else {
            Wait::More
        },
        Event::RequestFailed { code, .. } => Wait::Over(Err(Error::RequestFailed(code))),
        _ => Wait::More,
    }
}

/// Waits for the next device to come or go.
pub fn on_listen(event: Event) -> (wait: Wait<Event>)
    ensures
        match event {
            Event::DeviceAttached(_) => wait == Wait::Over(Ok::<Event, Error>(event)),
            Event::DeviceDetached { .. } => wait == Wait::Over(Ok::<Event, Error>(event)),
            Event::RequestFailed { code, .. } => wait == Wait::Over(
                Err::<Event, Error>(Error::RequestFailed(code)),
            ),
            _ => wait is More,
        },
{
    match event {
        Event::DeviceAttached(d) => Wait::Over(Ok(Event::DeviceAttached(d))),
        Event::DeviceDetached { device_id } => Wait::Over(
            Ok(Event::DeviceDetached { device_id }),
        ),
        Event::RequestFailed { code, .. } => Wait::Over(Err(Error::RequestFailed(code))),
        _ => Wait::More,
    }
}

} // verus!
