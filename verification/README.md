# userspace_router

A userspace router on top of DPDK whose logic is verified with
[Verus](https://github.com/verus-lang/verus). One port faces the WAN, where a
DHCP client obtains the router's address; the other ports form one bridged LAN
that is served ARP and DHCP. LAN hosts reach the WAN through TCP-only NAT behind
a stateful firewall: of what comes in, only what belongs to a connection that
was opened from inside gets through.

## Layout

```
src/               the verified library
  net/             headers, checksums, layered views over frames, ARP, DHCP, DNS
  mem/             free-list allocator, object pool, bounded queue, size notation
  sync/            spinlock, bitmask, and what a shared state can have become
  table.rs         a map from keys that encode into an integer
  text.rs          text built piece by piece
  router/          address pool, leases, forwarding database, neighbor tables,
                   NAT, connection tracking, DHCP client and server
    forwarding.rs  what each frame makes of the router's state and has sent,
                   and the laws that hold of it
    app.rs         the router itself, which does just that
    setup.rs       what is decided before the first packet
  dpdk/            packet buffers, port configuration, queue and lcore assignment
tests/             tests of the library
app/               the program: devices, workers, configuration file, heap
extras/            a C shim over the parts of DPDK that are inline in its headers
```

The library is handed the frames that were received and hands back the frames
that are to be sent. `app/` moves them from and to the devices, one lock around
the router, and copies them on the way.

## What is proved

The functions of the library have contracts over mathematical models of their
data, and the proofs rule out panics and arithmetic overflow. The `Shared*`
handles keep their state behind a lock, where other handles change it between
calls: their contracts speak of whatever a call found there, and what a change
does is stated by the table inside. Beyond that, proof functions whose names
start with `law_` state what holds across functions: that
checksums verify after a header was rewritten, that blocks which are handed out
do not overlap and freeing restores the space, that a DHCP exchange ends with a
lease, that NAT bindings are unique and reversible, that nothing unsolicited
comes in and nothing but TCP goes out, and others.

What is taken on trust is marked `external_body` or `assume_specification`, each
with a comment on what it claims.

## Running

Running needs Linux, hugepages, and NICs bound to `vfio-pci`. Build the shim (see
`extras/router_shim.c`), then:

```
CONFIG_FILE=router.conf userspace_router -l 0,1 -n 1 -a 0000:00:03.0 -a 0000:00:04.0
userspace_router probe -l 0 -n 1
```

The heap defaults to 1GiB; `HEAP_SIZE` chooses another size at build time.
