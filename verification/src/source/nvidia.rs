//! Graphics cards of one vendor as temperature sensors: the status codes of
//! the vendor's driver, the cards it lists, and the choice of one of them.

use crate::binary32::nearest;
use crate::source::{SourceError, Temperature};
use std::num::NonZeroI32;
use vstd::prelude::*;

verus! {

/// A status code of the vendor's driver that reports a failure: any code but
/// zero. It is as large as the code itself, and so is an optional one.
#[verifier::external_body]
#[derive(Debug, PartialEq, Eq)]
pub struct NvidiaError(NonZeroI32);

impl Clone for NvidiaError {
    /// The copy holds the same code.
    #[verifier::external_body]
    fn clone(&self) -> (copy: Self)
        ensures
            copy == *self,
    {
        NvidiaError(self.0)
    }
}

impl Copy for NvidiaError {

}

/// The status code that an error holds.
pub uninterp spec fn status_of(error: NvidiaError) -> i32;

/// `NonZeroI32::new`: a code other than zero is kept as it is, and zero
/// gives nothing.
#[verifier::external_body]
fn nonzero(status: i32) -> (error: Option<NvidiaError>)
    ensures
        status == 0 <==> error is None,
        error matches Some(e) ==> status_of(e) == status,
{
    NonZeroI32::new(status).map(NvidiaError)
}

/// `NonZeroI32::get`: the code that is kept, which is never zero.
#[verifier::external_body]
fn kept_status(error: &NvidiaError) -> (status: i32)
    ensures
        status == status_of(*error),
        status != 0,
{
    error.0.get()
}

impl NvidiaError {
    /// The status code, which is never zero.
    pub open spec fn status(self) -> i32 {
        status_of(self)
    }

    /// The error that a status code reports: none for zero, which is the
    /// driver's word for success.
    pub fn from_status(status: i32) -> (error: Option<Self>)
        ensures
            status == 0 <==> error is None,
            error matches Some(e) ==> e.status() == status,
    {
        nonzero(status)
    }

    /// The status code.
    pub fn code(&self) -> (status: i32)
        ensures
            status == self.status(),
            status != 0,
    {
        kept_status(self)
    }

    /// The status of a driver call as a result: zero is success, any other
    /// code an error.
    pub fn check(status: i32) -> (result: Result<(), Self>)
        ensures
            status == 0 <==> result is Ok,
            result matches Err(e) ==> e.status() == status,
    {
        match nonzero(status) {
            None => Ok(()),
            Some(error) => Err(error),
        }
    }
}

/// The driver's reference to one card. It owns nothing, and only the
/// driver's own list of cards hands out one that is not null.
#[derive(Clone, Copy, Debug, PartialEq, Eq, Structural)]
pub struct NvidiaDeviceHandle(usize);

impl NvidiaDeviceHandle {
    /// The address that the handle holds.
    pub closed spec fn address(self) -> usize {
        self.0
    }

    /// The handle that refers to no card.
    pub fn null() -> (handle: Self)
        ensures
            handle.address() == 0,
    {
        NvidiaDeviceHandle(0)
    }

    /// The handle that the driver gave, as an address.
    pub fn from_raw(address: usize) -> (handle: Self)
        ensures
            handle.address() == address,
    {
        NvidiaDeviceHandle(address)
    }

    /// The address to hand back to the driver.
    pub fn raw(&self) -> (address: usize)
        ensures
            address == self.address(),
    {
        self.0
    }

    /// Whether the handle refers to no card.
    pub fn is_null(&self) -> (null: bool)
        ensures
            null == (self.address() == 0),
    {
        self.0 == 0
    }

    /// The reading of the card's sensor, in whole degrees Celsius, from what
    /// the driver answered: its status, and the number it wrote. The number
    /// counts only where the status is zero.
    pub fn temp(&self, status: i32, degrees: u32) -> (result: Result<u32, NvidiaError>)
        ensures
            status == 0 ==> result == Ok::<u32, NvidiaError>(degrees),
            status != 0 ==> (result matches Err(e) && e.status() == status),
    {
        match NvidiaError::check(status) {
            Ok(()) => Ok(degrees),
            Err(error) => Err(error),
        }
    }
}

/// One card of the driver's list, with what the driver said of its name and
/// of its unique identifier when asked.
#[derive(Debug)]
pub struct NvidiaDevice {
    pub handle: NvidiaDeviceHandle,
    pub name: Result<String, NvidiaError>,
    pub uuid: Result<String, NvidiaError>,
}

/// Whether what the driver said of the name of a card, or of its
/// identifier, is what is wanted. Where nothing is wanted, the answer is not
/// looked at; where the driver failed to answer, its failure is the result.
pub open spec fn detail_fits(said: Result<String, NvidiaError>, wanted: Option<String>) -> Result<
    bool,
    NvidiaError,
> {
    match wanted {
        None => Ok(true),
        Some(w) => match said {
            Err(e) => Err(e),
            Ok(s) => Ok(s@ == w@),
        },
    }
}

/// Whether a card is the wanted one. The name is looked at first, and the
/// identifier only where the name fits.
pub open spec fn fits(device: NvidiaDevice, name: Option<String>, uuid: Option<String>) -> Result<
    bool,
    NvidiaError,
> {
    match detail_fits(device.name, name) {
        Ok(true) => detail_fits(device.uuid, uuid),
        settled => settled,
    }
}

/// Why no card could be chosen.
#[derive(Debug)]
pub enum SourceNvidiaError {
    /// The driver lists no card at all.
    NoDevices,
    /// No listed card has the wanted name and identifier.
    NotFound { name: Option<String>, uuid: Option<String> },
    /// The driver failed while the cards were looked through.
    Error(NvidiaError),
}

/// The cards that the driver lists, in its order. The list is made once.
#[derive(Debug)]
pub struct Nvidia {
    inited: bool,
    devices: Vec<NvidiaDevice>,
}

impl Nvidia {
    /// Whether the list has been made.
    pub closed spec fn inited(&self) -> bool {
        self.inited
    }

    /// The cards.
    pub closed spec fn cards(&self) -> Seq<NvidiaDevice> {
        self.devices@
    }

    /// The session before the driver was asked for its cards.
    pub fn null() -> (session: Self)
        ensures
            !session.inited(),
            session.cards().len() == 0,
    {
        Nvidia { inited: false, devices: Vec::new() }
    }

    /// Whether the driver is still to be asked for its cards.
    pub fn is_null(&self) -> (null: bool)
        ensures
            null == !self.inited(),
    {
        !self.inited
    }

    /// Takes in the cards that the driver lists, once and for all.
    pub fn init(&mut self, devices: Vec<NvidiaDevice>)
        requires
            !old(self).inited(),
        ensures
            final(self).inited(),
            final(self).cards() == devices@,
    {
        self.devices = devices;
        self.inited = true;
    }

    /// The cards.
    pub fn devices(&self) -> (devices: &Vec<NvidiaDevice>)
        ensures
            devices@ == self.cards(),
    {
        &self.devices
    }

    /// The first card that `filter` accepts. The cards are tried in the
    /// order of the list, and no card is tried after one that was accepted
    /// or one on which `filter` failed. The failure of `filter` is the
    /// failure of the search.
    pub fn try_find_device<E, F: Fn(&NvidiaDevice) -> Result<bool, E>>(&self, filter: F) -> (found:
        Result<Option<&NvidiaDevice>, E>)
        requires
            forall|i: int|
                0 <= i < self.cards().len() ==> call_requires(filter, (&#[trigger] self.cards()[i],)),
        ensures
            match found {
                Ok(Some(device)) => exists|i: int|
                    0 <= i < self.cards().len() && *device == self.cards()[i] && call_ensures(
                        filter,
                        (&self.cards()[i],),
                        Ok(true),
                    ) && rejected_before(self.cards(), filter, i),
                Ok(None) => rejected_before(self.cards(), filter, self.cards().len() as int),
                Err(e) => exists|i: int|
                    0 <= i < self.cards().len() && call_ensures(
                        filter,
                        (&self.cards()[i],),
                        Err(e),
                    ) && rejected_before(self.cards(), filter, i),
            },
    {
        let mut at: usize = 0;
        while at < self.devices.len()
            invariant
                at <= self.devices.len(),
                rejected_before(self.cards(), filter, at as int),
                forall|i: int|
                    0 <= i < self.cards().len() ==> call_requires(
                        filter,
                        (&#[trigger] self.cards()[i],),
                    ),
            decreases self.devices.len() - at,
        {
            let device = &self.devices[at];
            match filter(device) {
                Ok(true) => {
                    return Ok(Some(device));
                },
                Ok(false) => {},
                Err(e) => {
                    return Err(e);
                },
            }
            at = at + 1;
        }
        Ok(None)
    }
}

/// `filter` has turned down every card before position `end`.
pub open spec fn rejected_before<E, F: Fn(&NvidiaDevice) -> Result<bool, E>>(
    cards: Seq<NvidiaDevice>,
    filter: F,
    end: int,
) -> bool {
    forall|j: int|
        0 <= j < end ==> call_ensures(filter, (&#[trigger] cards[j],), Ok::<bool, E>(false))
}

/// No card before position `end` is the wanted one, and the driver failed
/// on none of them.
pub open spec fn none_fits_before(
    cards: Seq<NvidiaDevice>,
    name: Option<String>,
    uuid: Option<String>,
    end: int,
) -> bool {
    forall|j: int|
        0 <= j < end ==> #[trigger] fits(cards[j], name, uuid) == Ok::<bool, NvidiaError>(false)
}

/// The temperature sensor of one card.
#[derive(Debug)]
pub struct SourceNvidia {
    dev: NvidiaDeviceHandle,
}

fn detail_of(said: &Result<String, NvidiaError>, wanted: &Option<String>) -> (fit: Result<
    bool,
    NvidiaError,
>)
    ensures
        fit == detail_fits(*said, *wanted),
{
    match wanted {
        None => Ok(true),
        Some(w) => match said {
            Err(e) => Err(*e),
            Ok(s) => Ok(*s == *w),
        },
    }
}

impl SourceNvidia {
    /// The card that is read.
    pub closed spec fn device(self) -> NvidiaDeviceHandle {
        self.dev
    }

    /// The card that is read.
    pub fn handle(&self) -> (handle: NvidiaDeviceHandle)
        ensures
            handle == self.device(),
    {
        self.dev
    }

    /// Chooses the card to read from the driver's list: the first one that
    /// has the wanted name and the wanted identifier, where one or both are
    /// given, and the first of the list where none is.
    ///
    /// An empty list gives `NoDevices`. A failure of the driver on a card
    /// that had to be looked at before a matching one was found gives
    /// `Error`. A list without a matching card gives `NotFound`, with what
    /// was wanted.
    pub fn new(nvidia: &Nvidia, name: Option<String>, uuid: Option<String>) -> (result: Result<
        Self,
        SourceNvidiaError,
    >)
        ensures
            match result {
                Ok(source) => exists|i: int|
                    0 <= i < nvidia.cards().len() && none_fits_before(nvidia.cards(), name, uuid, i)
                        && fits(nvidia.cards()[i], name, uuid) == Ok::<bool, NvidiaError>(true)
                        && source.device() == nvidia.cards()[i].handle,
                Err(SourceNvidiaError::NoDevices) => nvidia.cards().len() == 0,
                Err(SourceNvidiaError::NotFound { name: n, uuid: u }) => nvidia.cards().len() > 0
                    && none_fits_before(nvidia.cards(), name, uuid, nvidia.cards().len() as int)
                    && n == name && u == uuid,
                Err(SourceNvidiaError::Error(e)) => exists|i: int|
                    0 <= i < nvidia.cards().len() && none_fits_before(nvidia.cards(), name, uuid, i)
                        && fits(nvidia.cards()[i], name, uuid) == Err::<bool, NvidiaError>(e),
            },
    {
        if nvidia.devices().len() == 0 {
            return Err(SourceNvidiaError::NoDevices);
        }
        let wanted_name = &name;
        let wanted_uuid = &uuid;
        let filter = |device: &NvidiaDevice| -> (fit: Result<bool, NvidiaError>)
            ensures
                fit == fits(*device, *wanted_name, *wanted_uuid),
            {
                match detail_of(&device.name, wanted_name) {
                    Ok(true) => detail_of(&device.uuid, wanted_uuid),
                    settled => settled,
                }
            };
        let found = nvidia.try_find_device(filter);
        match found {
            Ok(Some(device)) => {
                let dev = device.handle;
                proof {
                    let i = choose|i: int|
                        0 <= i < nvidia.cards().len() && *device == nvidia.cards()[i]
                            && call_ensures(filter, (&nvidia.cards()[i],), Ok(true))
                            && rejected_before(nvidia.cards(), filter, i);
                    assert(none_fits_before(nvidia.cards(), name, uuid, i));
                }
                Ok(SourceNvidia { dev })
            },
            Ok(None) => {
                assert(none_fits_before(nvidia.cards(), name, uuid, nvidia.cards().len() as int));
                Err(SourceNvidiaError::NotFound { name, uuid })
            },
            Err(e) => {
                proof {
                    let i = choose|i: int|
                        0 <= i < nvidia.cards().len() && call_ensures(
                            filter,
                            (&nvidia.cards()[i],),
                            Err(e),
                        ) && rejected_before(nvidia.cards(), filter, i);
                    assert(none_fits_before(nvidia.cards(), name, uuid, i));
                }
                Err(SourceNvidiaError::Error(e))
            },
        }
    }

    /// The temperature of the card, from the driver's answer to the query
    /// for this card: its status, and the whole degrees Celsius it wrote.
    /// Any status but zero is the failure of the reading, and the failure
    /// carries what `describe`, the driver's own table of messages, says of
    /// that status. After a reading that went well `describe` is not asked.
    pub fn try_get_temperature<F: Fn(NvidiaError) -> String>(
        &self,
        status: i32,
        degrees: u32,
        describe: F,
    ) -> (result: Result<Temperature, SourceError>)
        requires
            forall|error: NvidiaError| call_requires(describe, (error,)),
        ensures
            status == 0 ==> (result matches Ok(t) && t.bits() == nearest(degrees as nat, 0)),
            status != 0 ==> (result matches Err(SourceError::Driver(e, message)) && e.status()
                == status && call_ensures(describe, (e,), message)),
    {
        match self.dev.temp(status, degrees) {
            Ok(degrees) => Ok(Temperature::from_degrees(degrees)),
            Err(error) => {
                let message = describe(error);
                Err(SourceError::Driver(error, message))
            },
        }
    }
}

/// At most one card can be chosen: what the driver says of the cards
/// settles which.
pub proof fn lemma_choice_is_settled(
    cards: Seq<NvidiaDevice>,
    name: Option<String>,
    uuid: Option<String>,
    i: int,
    j: int,
)
    requires
        0 <= i < cards.len(),
        0 <= j < cards.len(),
        none_fits_before(cards, name, uuid, i),
        none_fits_before(cards, name, uuid, j),
        fits(cards[i], name, uuid) != Ok::<bool, NvidiaError>(false),
        fits(cards[j], name, uuid) != Ok::<bool, NvidiaError>(false),
    ensures
        i == j,
{
    if i < j {
        assert(fits(cards[i], name, uuid) == Ok::<bool, NvidiaError>(false));
    }
    if j < i {
        assert(fits(cards[j], name, uuid) == Ok::<bool, NvidiaError>(false));
    }
}

/// Where nothing is wanted of a card, the first card of the list is the choice.
pub proof fn lemma_no_filter_takes_first(cards: Seq<NvidiaDevice>, i: int)
    requires
        0 <= i < cards.len(),
        none_fits_before(cards, None, None, i),
    ensures
        fits(cards[i], None, None) == Ok::<bool, NvidiaError>(true),
        i == 0,
{
    if i > 0 {
        assert(fits(cards[0], None, None) == Ok::<bool, NvidiaError>(false));
    }
}

} // verus!
