# pi_kiosk

The logic of a Raspberry Pi security kiosk (camera, motion and tamper
detection, cellular modem, GPS, LoRa mesh radio, Wi-Fi access point, VPN and
failover between uplinks), written in Verus with its behaviour stated in
contracts and proved.

- `src/` is the verified library: the reading of what the system tools print
  (`ip -j` reports through `serde_json`, then the interfaces, route and
  neighbours taken from them; `mmcli`, AT replies, NMEA sentences, `/proc`
  files, `amixer`),
  the configuration files it writes (hostapd, dnsmasq, nftables, WireGuard,
  torrc), the allow-list of privileged commands, the failover and alert rules,
  the motion and tamper detectors, clip retention, session cookies and
  password checks (through the `argon2` crate).
- `app/` is the unverified program around it: serial ports, processes, files,
  sockets, serde copies of the library's types, and the parts that work in
  floating point.
- `tests/` exercises the library on concrete values.
