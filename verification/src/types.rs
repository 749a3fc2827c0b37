//! The enumerations of the message model and their numbers on the wire.

use vstd::prelude::*;

verus! {

/// The type of a question or of a record. A type that has no variant of its
/// own is kept by its number.
#[derive(Clone, Copy, Debug, PartialEq, Eq, Hash, Structural)]
pub enum DnsQueryType {
    A,
    NS,
    CNAME,
    SOA,
    MX,
    TXT,
    AAAA,
    Unknown(u16),
}

impl DnsQueryType {
    /// The number of the type on the wire.
    pub open spec fn code(self) -> u16 {
        match self {
            DnsQueryType::A => 1,
            DnsQueryType::NS => 2,
            DnsQueryType::CNAME => 5,
            DnsQueryType::SOA => 6,
            DnsQueryType::MX => 15,
            DnsQueryType::TXT => 16,
            DnsQueryType::AAAA => 28,
            DnsQueryType::Unknown(n) => n,
        }
    }

    /// The type that a number stands for.
    pub open spec fn of_code(n: u16) -> DnsQueryType {
        if n == 1 {
            DnsQueryType::A
        } else if n == 2 {
            DnsQueryType::NS
        } else if n == 5 {
            DnsQueryType::CNAME
        } else if n == 6 {
            DnsQueryType::SOA
        } else if n == 15 {
            DnsQueryType::MX
        } else if n == 16 {
            DnsQueryType::TXT
        } else if n == 28 {
            DnsQueryType::AAAA
        } else {
            DnsQueryType::Unknown(n)
        }
    }

    /// The value is the one that stands for its number: `Unknown` holds no
    /// number that has a variant of its own.
    pub open spec fn canonical(self) -> bool {
        Self::of_code(self.code()) == self
    }

    /// The number of the type on the wire.
    pub fn to_num(self) -> (n: u16)
        ensures
            n == self.code(),
    {
        match self {
            DnsQueryType::A => 1,
            DnsQueryType::NS => 2,
            DnsQueryType::CNAME => 5,
            DnsQueryType::SOA => 6,
            DnsQueryType::MX => 15,
            DnsQueryType::TXT => 16,
            DnsQueryType::AAAA => 28,
            DnsQueryType::Unknown(n) => n,
        }
    }

    /// The type that a number stands for; `Unknown` with the number where it
    /// has no variant of its own.
    pub fn from_num(n: u16) -> (t: DnsQueryType)
        ensures
            t == Self::of_code(n),
            t.code() == n,
            t.canonical(),
    {
        match n {
            1 => DnsQueryType::A,
            2 => DnsQueryType::NS,
            5 => DnsQueryType::CNAME,
            6 => DnsQueryType::SOA,
            15 => DnsQueryType::MX,
            16 => DnsQueryType::TXT,
            28 => DnsQueryType::AAAA,
            _ => DnsQueryType::Unknown(n),
        }
    }

    /// Whether the two types have the same number on the wire.
    pub fn same_as(self, other: DnsQueryType) -> (r: bool)
        ensures
            r == (self.code() == other.code()),
    {
        self.to_num() == other.to_num()
    }
}

/// The class of a record. A class other than IN is kept by its number.
#[derive(Clone, Copy, Debug, PartialEq, Eq, Hash, Structural)]
pub enum DnsClass {
    IN,
    Unknown(u16),
}

impl DnsClass {
    /// The number of the class on the wire.
    pub open spec fn code(self) -> u16 {
        match self {
            DnsClass::IN => 1,
            DnsClass::Unknown(n) => n,
        }
    }

    /// The class that a number stands for.
    pub open spec fn of_code(n: u16) -> DnsClass {
        if n == 1 {
            DnsClass::IN
        } else {
            DnsClass::Unknown(n)
        }
    }

    /// The value is the one that stands for its number: `Unknown` does not hold 1.
    pub open spec fn canonical(self) -> bool {
        Self::of_code(self.code()) == self
    }

    /// The number of the class on the wire.
    pub fn to_num(self) -> (n: u16)
        ensures
            n == self.code(),
    {
        match self {
            DnsClass::IN => 1,
            DnsClass::Unknown(n) => n,
        }
    }

    /// The class that a number stands for.
    pub fn from_num(n: u16) -> (c: DnsClass)
        ensures
            c == Self::of_code(n),
            c.code() == n,
            c.canonical(),
    {
        if n == 1 {
            DnsClass::IN
        } else {
            DnsClass::Unknown(n)
        }
    }
}

/// The response code of a message.
#[derive(Clone, Copy, Debug, PartialEq, Eq, Hash, Structural)]
pub enum DnsResponseCode {
    NOERROR,
    FORMERR,
    SERVFAIL,
    NXDOMAIN,
    NOTIMP,
    REFUSED,
}

impl DnsResponseCode {
    /// The number of the code on the wire.
    pub open spec fn code(self) -> u8 {
        match self {
            DnsResponseCode::NOERROR => 0,
            DnsResponseCode::FORMERR => 1,
            DnsResponseCode::SERVFAIL => 2,
            DnsResponseCode::NXDOMAIN => 3,
            DnsResponseCode::NOTIMP => 4,
            DnsResponseCode::REFUSED => 5,
        }
    }

    /// The code that a number stands for. A number without a variant reads
    /// as `NOERROR`.
    pub open spec fn of_code(n: u8) -> DnsResponseCode {
        if n == 1 {
            DnsResponseCode::FORMERR
        } else if n == 2 {
            DnsResponseCode::SERVFAIL
        } else if n == 3 {
            DnsResponseCode::NXDOMAIN
        } else if n == 4 {
            DnsResponseCode::NOTIMP
        } else if n == 5 {
            DnsResponseCode::REFUSED
        } else {
            DnsResponseCode::NOERROR
        }
    }

    /// The number of the code on the wire.
    pub fn to_num(self) -> (n: u8)
        ensures
            n == self.code(),
            n <= 5,
    {
        match self {
            DnsResponseCode::NOERROR => 0,
            DnsResponseCode::FORMERR => 1,
            DnsResponseCode::SERVFAIL => 2,
            DnsResponseCode::NXDOMAIN => 3,
            DnsResponseCode::NOTIMP => 4,
            DnsResponseCode::REFUSED => 5,
        }
    }

    /// The code that a number stands for. A number without a variant reads
    /// as `NOERROR`.
    pub fn from_num(n: u8) -> (c: DnsResponseCode)
        ensures
            c == Self::of_code(n),
            n <= 5 ==> c.code() == n,
    {
        match n {
            1 => DnsResponseCode::FORMERR,
            2 => DnsResponseCode::SERVFAIL,
            3 => DnsResponseCode::NXDOMAIN,
            4 => DnsResponseCode::NOTIMP,
            5 => DnsResponseCode::REFUSED,
            _ => DnsResponseCode::NOERROR,
        }
    }
}

} // verus!
