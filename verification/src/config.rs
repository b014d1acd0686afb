//! The configuration: how the serial device is set up, and the feeds.

use vstd::prelude::*;

verus! {

/// The number of data bits of a character on the line.
#[derive(Debug, PartialEq, Eq, Clone, Copy, Structural)]
pub enum DataBitsDef {
    Five,
    Six,
    Seven,
    Eight,
}

/// The flow control of the line.
#[derive(Debug, PartialEq, Eq, Clone, Copy, Structural)]
pub enum FlowControlDef {
    /// No flow control.
    Off,
    Software,
    Hardware,
}

/// The parity checking of the line.
#[derive(Debug, PartialEq, Eq, Clone, Copy, Structural)]
pub enum ParityDef {
    /// No parity bit.
    Off,
    Odd,
    Even,
}

/// The number of stop bits after a character on the line.
#[derive(Debug, PartialEq, Eq, Clone, Copy, Structural)]
pub enum StopBitsDef {
    One,
    Two,
}

/// How the serial device is opened.
#[derive(Debug, PartialEq, Eq)]
pub struct Serial {
    /// The speed of the line, in bits per second.
    pub baud: u32,
    pub data_bits: DataBitsDef,
    pub flow_control: FlowControlDef,
    pub parity: ParityDef,
    /// The name of the device.
    pub port: String,
    pub stop_bits: StopBitsDef,
    /// How long a read waits for a line, in milliseconds.
    pub timeout: u64,
}

/// A feed: the name it is known by, and where it is fetched from.
#[derive(Debug, PartialEq, Eq)]
pub struct Feed {
    pub name: String,
    pub url: String,
}

/// Whether no two of `feeds` have the same name.
pub open spec fn distinct_names(feeds: Seq<Feed>) -> bool {
    forall|i: int, j: int|
        0 <= i < j < feeds.len() ==> (#[trigger] feeds[i]).name@ != (#[trigger] feeds[j]).name@
}

/// Whether no two of `feeds` have the same name.
pub fn has_distinct_names(feeds: &Vec<Feed>) -> (distinct: bool)
    ensures
        distinct == distinct_names(feeds@),
{
    let mut j: usize = 0;
    while j < feeds.len()
        invariant
            j <= feeds.len(),
            distinct_names(feeds@.take(j as int)),
        decreases feeds.len() - j,
    {
        let mut i: usize = 0;
        while i < j
            invariant
                i <= j < feeds.len(),
                forall|k: int| 0 <= k < i ==> (#[trigger] feeds@[k]).name@ != feeds@[j as int].name@,
            decreases j - i,
        {
            if feeds[i].name == feeds[j].name {
                return false;
            }
            i = i + 1;
        }
        proof {
            let shorter = feeds@.take(j as int);
            let longer = feeds@.take(j + 1);
            assert forall|a: int, b: int| 0 <= a < b < longer.len() implies (
            #[trigger] longer[a]).name@ != (#[trigger] longer[b]).name@ by {
                if b < j {
                    assert(shorter[a] == longer[a] && shorter[b] == longer[b]);
                }
            }
        }
        j = j + 1;
    }
    assert(feeds@.take(feeds.len() as int) =~= feeds@);
    true
}

/// The configuration.
#[derive(Debug, PartialEq, Eq)]
pub struct Config {
    pub serial: Serial,
    /// The feeds, if any are configured.
    pub feeds: Option<Vec<Feed>>,
}

impl Config {
    /// Whether each feed has a name of its own.
    pub open spec fn well_formed(&self) -> bool {
        match self.feeds {
            Some(feeds) => distinct_names(feeds@),
            None => true,
        }
    }

    /// Whether each feed has a name of its own.
    pub fn is_well_formed(&self) -> (well: bool)
        ensures
            well == self.well_formed(),
    {
        match &self.feeds {
            Some(feeds) => has_distinct_names(feeds),
            None => true,
        }
    }
}

} // verus!
