//! Choosing, among the serial ports of the machine, those that a device can
//! be behind.

use vstd::prelude::*;

verus! {

/// A serial port as the system lists it.
#[derive(Clone, Debug, PartialEq, Eq)]
pub struct PortEntry {
    /// The name under which the port is opened.
    pub name: String,
    /// Whether the port is a USB device.
    pub usb: bool,
}

/// What a [`PortEntry`] stands for in contracts.
pub ghost struct PortView {
    pub name: Seq<char>,
    pub usb: bool,
}

impl View for PortEntry {
    type V = PortView;

    open spec fn view(&self) -> PortView {
        PortView { name: self.name@, usb: self.usb }
    }
}

/// The views of a list of ports, in the same order.
pub open spec fn port_views(ports: Seq<PortEntry>) -> Seq<PortView> {
    ports.map_values(|port: PortEntry| port@)
}

/// The name of `port` if it is a USB device.
pub open spec fn usb_name(port: PortView) -> Option<Seq<char>> {
    if port.usb {
        Some(port.name)
    } else {
        None
    }
}

/// The names of the USB devices among `ports`, in the order of `ports`.
pub open spec fn usb_names(ports: Seq<PortView>) -> Seq<Seq<char>> {
    ports.filter_map(|port: PortView| usb_name(port))
}

/// The names of the USB devices among `ports`, in the order in which the
/// system lists them.
pub fn usb_port_names(ports: &Vec<PortEntry>) -> (names: Vec<String>)
    ensures
        names@.map_values(|name: String| name@) == usb_names(port_views(ports@)),
{
    let ghost views = port_views(ports@);
    let mut names: Vec<String> = Vec::new();
    let mut i: usize = 0;
    proof {
        assert(views.take(0) =~= Seq::<PortView>::empty());
        assert(names@.map_values(|name: String| name@) =~= usb_names(views.take(0)));
    }
    while i < ports.len()
        invariant
            i <= ports@.len(),
            views == port_views(ports@),
            names@.map_values(|name: String| name@) == usb_names(views.take(i as int)),
        decreases ports@.len() - i,
    {
        let ghost earlier = names@;
        proof {
            views.lemma_filter_map_take_succ(|port: PortView| usb_name(port), i as int);
        }
        if ports[i].usb {
            names.push(ports[i].name.clone());
            proof {
                assert(names@.map_values(|name: String| name@) =~= earlier.map_values(
                    |name: String| name@,
                ) + seq![views[i as int].name]);
            }
        }
        i += 1;
    }
    proof {
        assert(views.take(i as int) =~= views);
    }
    names
}

} // verus!
