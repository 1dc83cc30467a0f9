//! IP tunnels over HTTP/3 (RFC 9484).

use vstd::prelude::*;
use vstd::slice::slice_subrange;

use crate::buffer::{put_bytes, put_u8, put_varint_with_len, Reader};
use crate::error::{ErrorView, PsqError};
use crate::net::{covering_block, IpAddr, Ipv4Network, Ipv6Network};
use crate::stream::capsule::{Capsule, Reading, Setting, SettingView};
use crate::text::{decimal_text, join};

verus! {

/// IP tunnel over an HTTP/3 connection. It belongs to an HTTP/3 stream that was
/// established with a CONNECT request.
pub struct IpTunnel {
    /// The HTTP/3 stream of the tunnel.
    pub stream_id: u64,
    /// Whether there is a TUN interface to write to.
    pub tunwriter: bool,
    /// The name of the TUN interface.
    pub ifname: String,
    /// Whether a task is reading from the TUN interface.
    pub tuntask: bool,
    /// The addresses that this side was assigned.
    pub addresses: Vec<IpAddr>,
    /// For testing support: whether tunneled packets are copied to a stream.
    pub teststream: bool,
}

/// The model of [`IpTunnel`].
#[verifier::ext_equal]
pub struct TunnelView {
    pub stream_id: u64,
    pub tunwriter: bool,
    pub ifname: Seq<char>,
    pub tuntask: bool,
    pub addresses: Seq<IpAddr>,
    pub teststream: bool,
}

impl View for IpTunnel {
    type V = TunnelView;

    open spec fn view(&self) -> TunnelView {
        TunnelView {
            stream_id: self.stream_id,
            tunwriter: self.tunwriter,
            ifname: self.ifname@,
            tuntask: self.tuntask,
            addresses: self.addresses@,
            teststream: self.teststream,
        }
    }
}

/// How the task that reads from the TUN interface ended.
#[derive(Clone, Debug, PartialEq, Eq)]
pub enum TaskEnd {
    /// It came to its end.
    Completed,
    /// It gave up with an error.
    Failed(PsqError),
    /// It panicked.
    Panicked,
}

/// Where a datagram goes that came out of the tunnel.
#[derive(Clone, Copy, Debug, PartialEq, Eq, Structural)]
pub struct Delivery {
    /// It is written to the TUN interface.
    pub to_tun: bool,
    /// It is copied to the test stream.
    pub to_teststream: bool,
}

impl TunnelView {
    /// The error that the end of the reading task brings, if it has ended with
    /// one.
    pub open spec fn task_error(self, end: Option<TaskEnd>) -> Option<ErrorView> {
        if !self.tuntask {
            None
        } else {
            match end {
                Some(TaskEnd::Failed(e)) => Some(e@),
                Some(TaskEnd::Panicked) => Some(ErrorView::Custom("Task panicked"@)),
                _ => None,
            }
        }
    }

    /// The tunnel once it is known whether the reading task has ended.
    pub open spec fn task_checked(self, end: Option<TaskEnd>) -> TunnelView {
        TunnelView { tuntask: self.tuntask && end is None, ..self }
    }

    /// The tunnel with the addresses among these settings.
    pub open spec fn with_settings(self, settings: Seq<SettingView>) -> TunnelView {
        TunnelView {
            addresses: self.addresses + crate::stream::capsule::addresses_in(settings),
            ..self
        }
    }
}

impl IpTunnel {
    /// A new tunnel on a stream, for the interface of the given name. With a
    /// test stream all tunneled packets are copied there.
    pub fn new(stream_id: u64, ifname: &str, teststream: bool) -> (r: Result<IpTunnel, PsqError>)
        ensures
            r matches Ok(tunnel) && tunnel@ == (TunnelView {
                stream_id,
                tunwriter: false,
                ifname: ifname@,
                tuntask: false,
                addresses: seq![],
                teststream,
            }),
    {
        Ok(
            IpTunnel {
                stream_id,
                tunwriter: false,
                ifname: ifname.to_owned(),
                tuntask: false,
                addresses: Vec::new(),
                teststream,
            },
        )
    }

    /// The addresses that this side was assigned.
    pub fn addresses(&self) -> (r: &Vec<IpAddr>)
        ensures
            r@ == self@.addresses,
    {
        &self.addresses
    }

    /// The HTTP/3 stream of the tunnel.
    pub fn stream_id(&self) -> (r: u64)
        ensures
            r == self@.stream_id,
    {
        self.stream_id
    }

    /// Whether packets can be written to the TUN interface.
    pub fn is_ready(&self) -> (r: bool)
        ensures
            r == self@.tunwriter,
    {
        self.tunwriter
    }

    /// Notes that the TUN interface is up and that a task reads from it.
    pub fn device_started(&mut self)
        ensures
            final(self)@ == (TunnelView { tunwriter: true, tuntask: true, ..old(self)@ }),
    {
        self.tunwriter = true;
        self.tuntask = true;
    }

    /// Checks whether the task that reads from the TUN interface has ended, and
    /// gives the error if it has ended with one.
    pub fn check_task_error(&mut self, end: Option<TaskEnd>) -> (r: Option<PsqError>)
        ensures
            final(self)@ == old(self)@.task_checked(end),
            match r {
                Some(e) => old(self)@.task_error(end) == Some(e@),
                None => old(self)@.task_error(end) is None,
            },
    {
        if !self.tuntask {
            return None;
        }
        match end {
            Some(TaskEnd::Completed) => {
                self.tuntask = false;
                None
            },
            Some(TaskEnd::Failed(e)) => {
                self.tuntask = false;
                Some(e)
            },
            Some(TaskEnd::Panicked) => {
                self.tuntask = false;
                Some(PsqError::Custom("Task panicked".to_owned()))
            },
            None => None,
        }
    }

    /// Decides where a datagram goes that came out of the tunnel, given whether
    /// the reading task has ended. Less than an IP header is not copied to the
    /// test stream.
    pub fn process_datagram(&mut self, buf: &[u8], end: Option<TaskEnd>) -> (r: Result<
        Delivery,
        PsqError,
    >)
        ensures
            final(self)@ == old(self)@.task_checked(end),
            match r {
                Ok(delivery) => {
                    &&& old(self)@.task_error(end) is None
                    &&& delivery.to_tun == old(self)@.tunwriter
                    &&& delivery.to_teststream == (old(self)@.teststream && buf@.len() >= 20)
                },
                Err(e) => old(self)@.task_error(end) == Some(e@),
            },
    {
        if let Some(e) = self.check_task_error(end) {
            return Err(e);
        }
        Ok(
            Delivery {
                to_tun: self.tunwriter,
                to_teststream: self.teststream && buf.len() >= 20,
            },
        )
    }

    /// Notes which settings of a reading were made, and gives its result.
    /// `failure` is the setting that could not be made, with its error; those
    /// behind it were not tried.
    pub fn complete(
        &mut self,
        settings: &Vec<Setting>,
        outcome: Result<usize, PsqError>,
        failure: Option<(usize, PsqError)>,
    ) -> (r: Result<usize, PsqError>)
        requires
            failure matches Some((i, _)) ==> i < settings@.len(),
        ensures
            final(self)@ == old(self)@.with_settings(
                crate::stream::capsule::settings_view(
                    settings@.take(
                        match failure {
                            Some((i, _)) => i as int,
                            None => settings@.len() as int,
                        },
                    ),
                ),
            ),
            match r {
                Ok(offset) => failure is None && outcome == Ok::<_, PsqError>(offset),
                Err(e) => match failure {
                    Some((_, error)) => e == error,
                    None => outcome == Err::<usize, _>(e),
                },
            },
    {
        let made: usize = match &failure {
            Some((i, _)) => *i,
            None => settings.len(),
        };
        let ghost before = self@;
        let mut i: usize = 0;
        assert(self@ =~= before.with_settings(
            crate::stream::capsule::settings_view(settings@.take(0)),
        ));
        while i < made
            invariant
                i <= made <= settings@.len(),
                self@ == before.with_settings(
                    crate::stream::capsule::settings_view(settings@.take(i as int)),
                ),
            decreases made - i,
        {
            proof {
                crate::stream::capsule::lemma_addresses_in_push(
                    crate::stream::capsule::settings_view(settings@.take(i as int)),
                    settings@[i as int]@,
                );
                assert(crate::stream::capsule::settings_view(settings@.take(i + 1))
                    =~= crate::stream::capsule::settings_view(settings@.take(i as int)).push(
                    settings@[i as int]@,
                ));
            }
            if let Setting::Address(addr) = &settings[i] {
                self.addresses.push(*addr);
            }
            i = i + 1;
            assert(self@ =~= before.with_settings(
                crate::stream::capsule::settings_view(settings@.take(i as int)),
            ));
        }
        if let Some((_, e)) = failure {
            return Err(e);
        }
        outcome
    }

    /// Writes an ADDRESS_ASSIGN capsule to the start of a buffer. Returns the
    /// size of the capsule in bytes.
    pub fn address_assign_capsule(buf: &mut Vec<u8>, addresses: &Vec<IpAddr>) -> (r: Result<
        usize,
        PsqError,
    >)
        ensures
            ({
                let (filled, end) = crate::stream::capsule::address_capsule_written(
                    old(buf)@,
                    addresses@,
                );
                &&& final(buf)@ == filled
                &&& match r {
                    Ok(size) => end == Some(size as int),
                    Err(e) => end is None && e@ == ErrorView::Octets,
                }
            }),
    {
        let ghost before = buf@;
        let ghost all = crate::stream::capsule::address_capsule_pieces(addresses@);
        let ghost tail = crate::stream::capsule::addresses_pieces(addresses@);
        assert(all.drop_first().drop_first() =~= tail);
        let mut off = put_varint_with_len(buf, 0, Capsule::AddressAssign.code(), 1)?;
        assert(crate::buffer::put_all(before, 0, all) == crate::buffer::put_all(
            buf@,
            off as int,
            all.drop_first(),
        ));
        // The length is set in the end.
        off = put_varint_with_len(buf, off, 0, 2)?;
        assert(crate::buffer::put_all(before, 0, all) == crate::buffer::put_all(
            buf@,
            off as int,
            tail,
        ));
        let mut i: usize = 0;
        assert(addresses@.skip(0) =~= addresses@);
        while i < addresses.len()
            invariant
                i <= addresses@.len(),
                3 <= off <= buf@.len(),
                before == old(buf)@,
                all == crate::stream::capsule::address_capsule_pieces(addresses@),
                crate::buffer::put_all(before, 0, all) == crate::buffer::put_all(
                    buf@,
                    off as int,
                    crate::stream::capsule::addresses_pieces(addresses@.skip(i as int)),
                ),
            decreases addresses@.len() - i,
        {
            let addr = addresses[i];
            let ghost left = addresses@.skip(i as int);
            let ghost p0 = crate::stream::capsule::addresses_pieces(left);
            let ghost p1 = p0.drop_first();
            let ghost p2 = p1.drop_first();
            let ghost p3 = p2.drop_first();
            proof {
                assert(left[0] == addr);
                assert(left.drop_first() =~= addresses@.skip(i + 1));
                assert(p3.drop_first() =~= crate::stream::capsule::addresses_pieces(
                    left.drop_first(),
                ));
            }
            // Request ID 0.
            off = put_varint_with_len(buf, off, 0, 1)?;
            assert(crate::buffer::put_all(before, 0, all) == crate::buffer::put_all(
                buf@,
                off as int,
                p1,
            ));
            match addr {
                IpAddr::V4(_) => {
                    off = put_u8(buf, off, 4)?;
                    assert(crate::buffer::put_all(before, 0, all) == crate::buffer::put_all(
                        buf@,
                        off as int,
                        p2,
                    ));
                    off = put_bytes(buf, off, addr.octets().as_slice())?;
                    assert(crate::buffer::put_all(before, 0, all) == crate::buffer::put_all(
                        buf@,
                        off as int,
                        p3,
                    ));
                    off = put_u8(buf, off, 32)?;
                },
                IpAddr::V6(_) => {
                    off = put_u8(buf, off, 6)?;
                    assert(crate::buffer::put_all(before, 0, all) == crate::buffer::put_all(
                        buf@,
                        off as int,
                        p2,
                    ));
                    off = put_bytes(buf, off, addr.octets().as_slice())?;
                    assert(crate::buffer::put_all(before, 0, all) == crate::buffer::put_all(
                        buf@,
                        off as int,
                        p3,
                    ));
                    off = put_u8(buf, off, 128)?;
                },
            }
            i = i + 1;
        }
        let size = off;
        proof {
            crate::bigendian::lemma_be_bytes_len((size - 3) as nat, 2);
        }
        put_varint_with_len(buf, 1, (size - 3) as u64, 2)?;
        Ok(size)
    }

    /// Writes a ROUTE_ADVERTISEMENT capsule with the given routes at an offset
    /// of a buffer. Returns the size of the capsule in bytes; without routes
    /// there is none.
    pub fn route_advertisement_capsule(
        dstbuf: &mut Vec<u8>,
        offset: usize,
        srcbuf: &Vec<u8>,
    ) -> (r: Result<usize, PsqError>)
        requires
            srcbuf@.len() > 3 ==> offset <= old(dstbuf)@.len(),
        ensures
            ({
                let (filled, end) = crate::stream::capsule::route_capsule_written(
                    old(dstbuf)@,
                    offset as int,
                    srcbuf@,
                );
                &&& final(dstbuf)@ == filled
                &&& match r {
                    Ok(size) => end == Some(size as int),
                    Err(e) => end is None && e@ == ErrorView::Octets,
                }
            }),
    {
        if srcbuf.len() <= 3 {
            // No addresses to advertise.
            return Ok(0);
        }
        let ghost before = dstbuf@;
        let ghost p0 = crate::stream::capsule::route_capsule_pieces(srcbuf@);
        let ghost p1 = p0.drop_first();
        let ghost p2 = p1.drop_first();
        assert(p2.drop_first() =~= seq![]);
        let mut off = put_varint_with_len(
            dstbuf,
            offset,
            Capsule::RouteAdvertisement.code(),
            1,
        )?;
        assert(crate::buffer::put_all(before, offset as int, p0) == crate::buffer::put_all(
            dstbuf@,
            off as int,
            p1,
        ));
        off = put_varint_with_len(dstbuf, off, srcbuf.len() as u64, 2)?;
        assert(crate::buffer::put_all(before, offset as int, p0) == crate::buffer::put_all(
            dstbuf@,
            off as int,
            p2,
        ));
        off = put_bytes(dstbuf, off, srcbuf.as_slice())?;
        assert(crate::buffer::put_all(before, offset as int, p0) == crate::buffer::put_all(
            dstbuf@,
            off as int,
            p2.drop_first(),
        ));
        Ok(off - offset)
    }

    /// Reads an IPv4 address.
    pub fn octets_to_ipv4(octets: &mut Reader) -> (r: Result<u32, PsqError>)
        requires
            old(octets).wf(),
        ensures
            final(octets).wf(),
            final(octets).buf@ == old(octets).buf@,
            match r {
                Ok(addr) => {
                    &&& final(octets).off == old(octets).off + 4
                    &&& addr == crate::stream::capsule::number_in(
                        old(octets).buf@,
                        old(octets).off as int,
                        old(octets).off + 4,
                    )
                },
                Err(e) => {
                    &&& old(octets).off + 4 > old(octets).buf@.len()
                    &&& final(octets).off == old(octets).buf@.len()
                    &&& e@ == ErrorView::Octets
                },
            },
    {
        let a = octets.get_u8()?;
        let b = octets.get_u8()?;
        let c = octets.get_u8()?;
        let d = octets.get_u8()?;
        proof {
            reveal_with_fuel(crate::bigendian::be_value, 5);
        }
        Ok(((a as u32 * 256 + b as u32) * 256 + c as u32) * 256 + d as u32)
    }

    /// Reads an IPv6 address.
    pub fn octets_to_ipv6(octets: &mut Reader) -> (r: Result<u128, PsqError>)
        requires
            old(octets).wf(),
        ensures
            final(octets).wf(),
            final(octets).buf@ == old(octets).buf@,
            match r {
                Ok(addr) => {
                    &&& final(octets).off == old(octets).off + 16
                    &&& addr == crate::stream::capsule::number_in(
                        old(octets).buf@,
                        old(octets).off as int,
                        old(octets).off + 16,
                    )
                },
                Err(e) => {
                    &&& old(octets).off + 16 > old(octets).buf@.len()
                    &&& final(octets).off >= old(octets).off
                    &&& final(octets).off + 1 >= old(octets).buf@.len()
                    &&& (final(octets).off - old(octets).off) % 2 == 0
                    &&& e@ == ErrorView::Octets
                },
            },
    {
        let ghost buf = octets.buf@;
        let ghost start = octets.off as int;
        let mut value: u128 = 0;
        let mut i: u8 = 0;
        while i < 8
            invariant
                i <= 8,
                octets.wf(),
                octets.buf@ == buf,
                buf == old(octets).buf@,
                start == old(octets).off,
                octets.off == start + 2 * i,
                value == crate::stream::capsule::number_in(buf, start, octets.off as int),
            decreases 8 - i,
        {
            let part = octets.get_u16()?;
            proof {
                let s = buf.subrange(start, start + 2 * i);
                let t = buf.subrange(start, start + 2 * i + 2);
                assert(t =~= s.push(buf[start + 2 * i]).push(buf[start + 2 * i + 1]));
                crate::bigendian::lemma_be_value_push(s, buf[start + 2 * i]);
                crate::bigendian::lemma_be_value_push(
                    s.push(buf[start + 2 * i]),
                    buf[start + 2 * i + 1],
                );
                crate::bigendian::lemma_be_value_bound(t);
                crate::bigendian::lemma_address_limits();
                vstd::arithmetic::power::lemma_pow_increases(256, t.len(), 16);
            }
            value = value * 65536 + part as u128;
            i = i + 1;
        }
        Ok(value)
    }

    /// The smallest IPv4 network around `start` that reaches to `end`, in the
    /// usual notation.
    pub fn ipv4_range_to_cidr(start: u32, end: u32) -> (r: Option<String>)
        ensures
            r matches Some(s) && s@ == crate::stream::capsule::ipv4_cidr(
                start as nat,
                end as nat,
            ).text(),
    {
        proof {
            crate::net::lemma_address_space();
        }
        let (addr, prefix) = covering_block(start as u128, end as u128, 32);
        proof {
            let k = crate::net::least_cover(start as nat, end as nat, 0, 32);
            crate::net::lemma_block(start as nat, k);
        }
        let network = Ipv4Network { addr: addr as u32, prefix };
        Some(network.to_text())
    }

    /// The smallest IPv6 network around `start` that reaches to `end`, in the
    /// usual notation.
    pub fn ipv6_range_to_cidr(start: u128, end: u128) -> (r: Option<String>)
        ensures
            r matches Some(s) && s@ == crate::stream::capsule::ipv6_cidr(
                start as nat,
                end as nat,
            ).text(),
    {
        proof {
            crate::net::lemma_address_space();
        }
        let (addr, prefix) = covering_block(start, end, 128);
        let network = Ipv6Network { addr, prefix };
        Some(network.to_text())
    }

    /// Reads one entry of an ADDRESS_ASSIGN capsule. The request number and the
    /// prefix have no use for now.
    fn address_entry(octets: &mut Reader) -> (r: Result<IpAddr, PsqError>)
        requires
            old(octets).wf(),
        ensures
            final(octets).wf(),
            final(octets).buf@ == old(octets).buf@,
            match (
                r,
                crate::stream::capsule::address_entry(old(octets).buf@, old(octets).off as int),
            ) {
                (Ok(addr), Ok((entry, next))) => addr == entry && final(octets).off == next,
                (Err(e), Err(error)) => e@ == error,
                _ => false,
            },
    {
        octets.get_varint()?;
        let ipver = octets.get_u8()?;
        if ipver == 4 {
            let v4 = Self::octets_to_ipv4(octets)?;
            octets.get_u8()?;
            Ok(IpAddr::V4(v4))
        } else if ipver == 6 {
            let v6 = Self::octets_to_ipv6(octets)?;
            octets.get_u8()?;
            Ok(IpAddr::V6(v6))
        } else {
            Err(
                PsqError::H3Capsule(
                    join(
                        "Address assign: Invalid IP version: ",
                        decimal_text(ipver as u128).as_str(),
                    ),
                ),
            )
        }
    }

    /// Reads one entry of a ROUTE_ADVERTISEMENT capsule. The protocol has no use
    /// for now.
    fn route_entry(octets: &mut Reader) -> (r: Result<String, PsqError>)
        requires
            old(octets).wf(),
        ensures
            final(octets).wf(),
            final(octets).buf@ == old(octets).buf@,
            match (
                r,
                crate::stream::capsule::route_entry(old(octets).buf@, old(octets).off as int),
            ) {
                (Ok(destination), Ok((entry, next))) => destination@ == entry && final(octets).off
                    == next,
                (Err(e), Err(error)) => e@ == error,
                _ => false,
            },
    {
        let ipver = octets.get_u8()?;
        if ipver == 4 {
            let start_ip = Self::octets_to_ipv4(octets)?;
            let end_ip = Self::octets_to_ipv4(octets)?;
            octets.get_u8()?;
            Ok(Self::ipv4_range_to_cidr(start_ip, end_ip).unwrap())
        } else if ipver == 6 {
            let start_ip = Self::octets_to_ipv6(octets)?;
            let end_ip = Self::octets_to_ipv6(octets)?;
            octets.get_u8()?;
            Ok(Self::ipv6_range_to_cidr(start_ip, end_ip).unwrap())
        } else {
            Err(
                PsqError::H3Capsule(
                    join(
                        "Route advertisement: Invalid IP version: ",
                        decimal_text(ipver as u128).as_str(),
                    ),
                ),
            )
        }
    }

    /// Reads the entries of an ADDRESS_ASSIGN capsule of the given length.
    pub fn process_address_assign(
        octets: &mut Reader,
        len: u64,
        settings: &mut Vec<Setting>,
    ) -> (r: Result<usize, PsqError>)
        requires
            old(octets).wf(),
            len <= usize::MAX,
        ensures
            final(octets).wf(),
            final(octets).buf@ == old(octets).buf@,
            reads(
                crate::stream::capsule::read_addresses(
                    old(octets).buf@,
                    old(octets).off as int,
                    len as int,
                ),
                old(settings)@,
                final(settings)@,
                r,
            ),
    {
        let ghost whole = crate::stream::capsule::read_addresses(
            octets.buf@,
            octets.off as int,
            len as int,
        );
        let ghost before = crate::stream::capsule::settings_view(settings@);
        let mut remaining: usize = len as usize;
        while remaining >= 7
            invariant
                octets.wf(),
                octets.buf@ == old(octets).buf@,
                before == crate::stream::capsule::settings_view(old(settings)@),
                whole == crate::stream::capsule::read_addresses(
                    old(octets).buf@,
                    old(octets).off as int,
                    len as int,
                ),
                whole.behind(before) == crate::stream::capsule::read_addresses(
                    octets.buf@,
                    octets.off as int,
                    remaining as int,
                ).behind(crate::stream::capsule::settings_view(settings@)),
            decreases remaining,
        {
            let offset = octets.off;
            proof {
                crate::stream::capsule::lemma_varint_advances(octets.buf@, offset as int);
            }
            let ghost done = crate::stream::capsule::settings_view(settings@);
            let addr = Self::address_entry(octets)?;
            if octets.off - offset > remaining {
                return Err(
                    PsqError::H3Capsule("Invalid length in Address Assign capsule".to_owned()),
                );
            }
            settings.push(Setting::Address(addr));
            assert(crate::stream::capsule::settings_view(settings@) =~= done.push(
                SettingView::Address(addr),
            ));
            remaining = remaining - (octets.off - offset);
        }
        if remaining > 0 {
            Err(PsqError::H3Capsule("Invalid length in Address Assign capsule".to_owned()))
        } else {
            Ok(octets.off)
        }
    }

    /// Reads the entries of a ROUTE_ADVERTISEMENT capsule of the given length.
    pub fn process_route_advertisement(
        octets: &mut Reader,
        len: u64,
        settings: &mut Vec<Setting>,
    ) -> (r: Result<usize, PsqError>)
        requires
            old(octets).wf(),
        ensures
            final(octets).wf(),
            final(octets).buf@ == old(octets).buf@,
            reads(
                crate::stream::capsule::read_routes(
                    old(octets).buf@,
                    old(octets).off as int,
                    len as int,
                ),
                old(settings)@,
                final(settings)@,
                r,
            ),
    {
        let ghost whole = crate::stream::capsule::read_routes(
            octets.buf@,
            octets.off as int,
            len as int,
        );
        let ghost before = crate::stream::capsule::settings_view(settings@);
        let mut remaining: u64 = len;
        while remaining >= 10
            invariant
                octets.wf(),
                octets.buf@ == old(octets).buf@,
                before == crate::stream::capsule::settings_view(old(settings)@),
                whole == crate::stream::capsule::read_routes(
                    old(octets).buf@,
                    old(octets).off as int,
                    len as int,
                ),
                whole.behind(before) == crate::stream::capsule::read_routes(
                    octets.buf@,
                    octets.off as int,
                    remaining as int,
                ).behind(crate::stream::capsule::settings_view(settings@)),
            decreases remaining,
        {
            let offset = octets.off;
            let ghost done = crate::stream::capsule::settings_view(settings@);
            let destination = Self::route_entry(octets)?;
            if (octets.off - offset) as u64 > remaining {
                return Err(
                    PsqError::H3Capsule("Invalid length in Route Advertisement capsule".to_owned()),
                );
            }
            let ghost route = SettingView::Route(destination@);
            settings.push(Setting::Route(destination));
            assert(crate::stream::capsule::settings_view(settings@) =~= done.push(route));
            remaining = remaining - (octets.off - offset) as u64;
        }
        octets.skip(remaining as usize)?;
        Ok(octets.off)
    }

    /// Reads one capsule at the start of a buffer. Both IPv4 and IPv6 are
    /// supported. A capsule of an unknown type is passed over. Returns the size of
    /// the capsule in bytes.
    pub fn process_h3_capsule(buf: &[u8], settings: &mut Vec<Setting>) -> (r: Result<
        usize,
        PsqError,
    >)
        ensures
            reads(
                crate::stream::capsule::read_capsule(buf@),
                old(settings)@,
                final(settings)@,
                r,
            ),
            r matches Ok(size) ==> crate::stream::capsule::declared_size(buf@) == Some(size as int)
                && 2 <= size <= buf@.len(),
    {
        proof {
            crate::stream::capsule::law_capsule_size(buf@);
        }
        let mut octets = Reader::with_slice(buf);
        let captype = octets.get_varint()?;
        let len = octets.get_varint()?;
        if len > buf.len() as u64 || len + 2 > buf.len() as u64 {
            return Err(PsqError::H3Capsule("Truncated capsule received".to_owned()));
        }
        match Capsule::from_code(captype) {
            Some(Capsule::AddressAssign) => Self::process_address_assign(
                &mut octets,
                len,
                settings,
            ),
            Some(Capsule::RouteAdvertisement) => Self::process_route_advertisement(
                &mut octets,
                len,
                settings,
            ),
            None => {
                octets.skip(len as usize)?;
                Ok(octets.off)
            },
        }
    }

    /// Reads the capsules in the data that came on the stream of the tunnel, one
    /// after the other.
    pub fn process_h3_data(data: &[u8]) -> (r: (Vec<Setting>, Result<usize, PsqError>))
        ensures
            reads(crate::stream::capsule::read_capsules(data@, 0), seq![], r.0@, r.1),
    {
        let mut settings: Vec<Setting> = Vec::new();
        let mut off: usize = 0;
        let ghost whole = crate::stream::capsule::read_capsules(data@, 0);
        assert(whole.behind(crate::stream::capsule::settings_view(settings@)) =~= whole);
        while off < data.len()
            invariant
                off <= data@.len(),
                whole == crate::stream::capsule::read_capsules(data@, 0),
                whole == crate::stream::capsule::read_capsules(data@, off as int).behind(
                    crate::stream::capsule::settings_view(settings@),
                ),
            decreases data@.len() - off,
        {
            let ghost done = crate::stream::capsule::settings_view(settings@);
            let rest = slice_subrange(data, off, data.len());
            match Self::process_h3_capsule(rest, &mut settings) {
                Ok(size) => {
                    assert(whole =~= crate::stream::capsule::read_capsules(
                        data@,
                        off + size,
                    ).behind(crate::stream::capsule::settings_view(settings@)));
                    off = off + size;
                },
                Err(e) => {
                    return (settings, Err(e));
                },
            }
        }
        (settings, Ok(off))
    }
}

/// That a reading went as its model says: it added the settings of the model
/// and ended as the model does.
pub open spec fn reads(
    model: Reading,
    before: Seq<Setting>,
    after: Seq<Setting>,
    outcome: Result<usize, PsqError>,
) -> bool {
    &&& crate::stream::capsule::settings_view(after) == crate::stream::capsule::settings_view(
        before,
    ) + model.settings
    &&& crate::stream::capsule::outcome_view(outcome) == model.outcome
}

/// The end of the reading task is an error exactly if there was a task and it
/// failed, with its own error, or panicked. Where it has ended, in whatever way,
/// there is no task any more; nothing else of the tunnel changes.
pub proof fn law_task_end_is_noted(tunnel: TunnelView, end: Option<TaskEnd>)
    ensures
        tunnel.task_error(end) is Some <==> tunnel.tuntask && (end matches Some(TaskEnd::Failed(_))
            || end matches Some(TaskEnd::Panicked)),
        tunnel.tuntask && (end matches Some(TaskEnd::Panicked)) ==> tunnel.task_error(end) == Some(
            ErrorView::Custom("Task panicked"@),
        ),
        end matches Some(TaskEnd::Failed(e)) ==> tunnel.tuntask ==> tunnel.task_error(end) == Some(
            e@,
        ),
        tunnel.task_checked(end).tuntask <==> tunnel.tuntask && end is None,
        tunnel.task_checked(end).tunwriter == tunnel.tunwriter,
        tunnel.task_checked(end).teststream == tunnel.teststream,
        tunnel.task_checked(end).stream_id == tunnel.stream_id,
        tunnel.task_checked(end).ifname == tunnel.ifname,
        tunnel.task_checked(end).addresses == tunnel.addresses,
{
}

/// Settings that were made add their addresses, in their order, behind those that
/// the tunnel has; nothing else of the tunnel changes. Making some settings and
/// then others is making them all.
pub proof fn law_settings_add_their_addresses(
    tunnel: TunnelView,
    a: Seq<SettingView>,
    b: Seq<SettingView>,
    addr: IpAddr,
)
    ensures
        tunnel.with_settings(seq![]).addresses == tunnel.addresses,
        tunnel.with_settings(seq![SettingView::Address(addr)]).addresses == tunnel.addresses.push(
            addr,
        ),
        forall|s: Seq<char>|
            (#[trigger] tunnel.with_settings(seq![SettingView::Route(s)])).addresses
                == tunnel.addresses,
        tunnel.with_settings(a).with_settings(b).addresses == tunnel.with_settings(a + b).addresses,
        tunnel.with_settings(a).tunwriter == tunnel.tunwriter,
        tunnel.with_settings(a).tuntask == tunnel.tuntask,
        tunnel.with_settings(a).teststream == tunnel.teststream,
        tunnel.with_settings(a).stream_id == tunnel.stream_id,
        tunnel.with_settings(a).ifname == tunnel.ifname,
{
    crate::stream::capsule::law_addresses_among_settings(a, b, addr);
    assert(tunnel.with_settings(seq![]).addresses =~= tunnel.addresses);
    assert(tunnel.with_settings(seq![SettingView::Address(addr)]).addresses
        =~= tunnel.addresses.push(addr));
    assert forall|s: Seq<char>|
        (#[trigger] tunnel.with_settings(seq![SettingView::Route(s)])).addresses
            == tunnel.addresses by {
        assert(crate::stream::capsule::addresses_in(seq![SettingView::Route(s)]).len() == 0);
        assert(tunnel.with_settings(seq![SettingView::Route(s)]).addresses =~= tunnel.addresses);
    }
    assert(tunnel.with_settings(a).with_settings(b).addresses =~= tunnel.with_settings(
        a + b,
    ).addresses);
}

/// A reading that agrees with its model keeps the settings that were there, adds
/// exactly those of the model, and ends at the same offset or with the same error.
pub proof fn law_readings_are_exact(
    model: Reading,
    before: Seq<Setting>,
    after: Seq<Setting>,
    outcome: Result<usize, PsqError>,
    i: int,
)
    requires
        reads(model, before, after, outcome),
    ensures
        after.len() == before.len() + model.settings.len(),
        0 <= i < before.len() ==> after[i]@ == before[i]@,
        0 <= i < model.settings.len() ==> after[before.len() + i]@ == model.settings[i],
        outcome is Ok <==> model.outcome is Ok,
        outcome matches Ok(offset) ==> model.outcome == Ok::<_, ErrorView>(offset as int),
        outcome matches Err(e) ==> model.outcome == Err::<int, _>(e@),
{
    let all = crate::stream::capsule::settings_view(after);
    assert(all.len() == after.len());
    if 0 <= i < before.len() {
        assert(all[i] == after[i]@);
    }
    if 0 <= i < model.settings.len() {
        assert(all[before.len() + i] == after[before.len() + i]@);
    }
}

} // verus!
