//! The virtual interface as the sessions see it: its name, the block it was
//! given, and the host commands that configure it.

use crate::network::{parsed_cidr, ConfiguredNetwork, NetworkError};
use vstd::prelude::*;
use vstd::slice::{slice_subrange, slice_to_vec};
use vstd::string::StringExecFns;

verus! {

/// Size of the buffer for one read from the device, in bytes.
pub const MTU: usize = 1500;

/// The packet that one read from the device completed: the first `len` bytes
/// of the buffer, as one message. `None` where the device claims more bytes
/// than the buffer holds.
pub fn packet_of_read(buf: &[u8], len: usize) -> (r: Option<Vec<u8>>)
    ensures
        len <= buf@.len() ==> (r matches Some(packet) && packet@ == buf@.take(len as int)),
        len > buf@.len() ==> r is None,
{
    if len <= buf.len() {
        let packet = slice_to_vec(slice_subrange(buf, 0, len));
        assert(packet@ =~= buf@.take(len as int));
        Some(packet)
    } else {
        None
    }
}

/// A step of host configuration, carried out by the caller.
#[derive(Debug, PartialEq, Eq)]
pub enum HostCommand {
    /// Give the device an address with its prefix length.
    AssignAddress { device: String, cidr: String },
    /// Bring the device up.
    BringUp { device: String },
}

/// A host command with its texts as values.
pub enum HostCommandView {
    AssignAddress { device: Seq<char>, cidr: Seq<char> },
    BringUp { device: Seq<char> },
}

impl View for HostCommand {
    type V = HostCommandView;

    open spec fn view(&self) -> HostCommandView {
        match self {
            HostCommand::AssignAddress { device, cidr } => HostCommandView::AssignAddress {
                device: device@,
                cidr: cidr@,
            },
            HostCommand::BringUp { device } => HostCommandView::BringUp { device: device@ },
        }
    }
}

/// The commands that bring a device up with an address: first the address,
/// then the link.
pub open spec fn configure_commands(device: Seq<char>, cidr: Seq<char>) -> Seq<HostCommandView> {
    seq![
        HostCommandView::AssignAddress { device, cidr },
        HostCommandView::BringUp { device },
    ]
}

/// The views of a run of host commands.
pub open spec fn command_views(commands: Seq<HostCommand>) -> Seq<HostCommandView> {
    commands.map_values(|c: HostCommand| c@)
}

/// What the sessions know of the virtual interface.
#[derive(Debug)]
pub struct IfaceWrapper {
    name: String,
    network: Option<ConfiguredNetwork>,
}

impl IfaceWrapper {
    pub closed spec fn spec_name(&self) -> Seq<char> {
        self.name@
    }

    pub closed spec fn spec_network(&self) -> Option<ConfiguredNetwork> {
        self.network
    }

    /// The interface of the device with the given name, not yet configured.
    pub fn new(name: String) -> (r: IfaceWrapper)
        ensures
            r.spec_name() == name@,
            r.spec_network() is None,
    {
        IfaceWrapper { name, network: None }
    }

    /// The name of the device.
    pub fn name(&self) -> (r: &str)
        ensures
            r@ == self.spec_name(),
    {
        self.name.as_str()
    }

    /// The block the interface was given, once it has one.
    #[verifier::when_used_as_spec(spec_network)]
    pub fn network(&self) -> (r: Option<ConfiguredNetwork>)
        ensures
            r == self.spec_network(),
            r matches Some(n) ==> n.wf(),
    {
        match self.network {
            Some(n) => {
                proof {
                    use_type_invariant(&n);
                }
                Some(n)
            },
            None => None,
        }
    }

    /// The commands that give the device the address `cidr` and bring it up.
    pub fn configure(&self, cidr: &str) -> (r: Vec<HostCommand>)
        ensures
            command_views(r@) == configure_commands(self.spec_name(), cidr@),
    {
        let mut r: Vec<HostCommand> = Vec::new();
        r.push(
            HostCommand::AssignAddress {
                device: self.name.clone(),
                cidr: String::from_str(cidr),
            },
        );
        r.push(HostCommand::BringUp { device: self.name.clone() });
        assert(command_views(r@) =~= configure_commands(self.spec_name(), cidr@));
        r
    }

    /// Records `network` as the block of the interface and, where `configure`
    /// is set, returns the commands that configure the device with the text
    /// `cidr`; no commands otherwise.
    pub fn set_block(&mut self, network: ConfiguredNetwork, cidr: &str, configure: bool) -> (r: Vec<
        HostCommand,
    >)
        ensures
            final(self).spec_name() == old(self).spec_name(),
            final(self).spec_network() == Some(network),
            command_views(r@) == if configure {
                configure_commands(old(self).spec_name(), cidr@)
            } else {
                Seq::<HostCommandView>::empty()
            },
    {
        self.network = Some(network);
        if configure {
            self.configure(cidr)
        } else {
            let none: Vec<HostCommand> = Vec::new();
            assert(command_views(none@) =~= Seq::<HostCommandView>::empty());
            none
        }
    }

    /// Records the block written in `cidr` and, where `configure` is set,
    /// returns the commands that configure the device with it. A text that
    /// is no block is refused and leaves the interface as it was.
    pub fn set_network(&mut self, cidr: &str, configure: bool) -> (r: Result<
        Vec<HostCommand>,
        NetworkError,
    >)
        ensures
            final(self).spec_name() == old(self).spec_name(),
            match parsed_cidr(cidr@) {
                Some((addr, prefix)) => {
                    &&& final(self).spec_network() matches Some(n)
                    &&& n.wf() && n.spec_ip() == addr && n.spec_prefix() == prefix
                    &&& r matches Ok(commands)
                    &&& command_views(commands@) == if configure {
                        configure_commands(old(self).spec_name(), cidr@)
                    } else {
                        Seq::<HostCommandView>::empty()
                    }
                },
                None => r == Err::<Vec<HostCommand>, NetworkError>(NetworkError::InvalidCidr)
                    && final(self).spec_network() == old(self).spec_network(),
            },
    {
        match ConfiguredNetwork::parse(cidr) {
            Ok(network) => Ok(self.set_block(network, cidr, configure)),
            Err(e) => Err(e),
        }
    }
}

} // verus!
