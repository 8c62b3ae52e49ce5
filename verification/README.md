# tuya-meter

Reads Tuya smart power meters on the local network, without a cloud: the AT4P-W plug meter and
the SA1 CT clamp meter, over the Tuya protocol in versions 3.3, 3.4 and 3.5. A server mode keeps a
connection to the meter and passes its readings on to an MQTT broker, with announcements for Home
Assistant, and to a log of JSON lines.

## Layout

- `src/` is the library, verified with Verus. It holds what is to be decided and computed; it
  opens no connection and reads no clock.
  - `text`, `bytes`, `base64`, `calendar`: the ground
  - `json`: JSON values, read and written by `serde_json`
  - `crypto`: ciphers and digests of outside crates, known by name but for CRC-32
  - `frame`, `device`, `session`, `control`, `dps`, `query`: the protocol
  - `discovery`: finding a device by ARP table and broadcasts
  - `meter`: what the data points of a meter mean
  - `logfile`, `logger`: names and rotation of the log
  - `hass`, `server`, `config`: announcements, the server, settings
- `app/` is the program around it: sockets, files, clocks and the settings file, and what is
  computed in floating point.
- `tests/` runs the library.

Where the outside world is involved, the library is a state machine: a function from a state and
an event to what is to be done next. The program does it and reports back.

## Usage

```
tuya-meter [config.yaml] [command]
```

The commands are `status` (the default), `json`, `on`, `off` and `server`.

```yaml
device:
  ip: 192.168.1.100           # or "auto"
  id: your_device_id_here
  local_key: your_local_key
  version: "3.5"
  # mac: "aa:bb:cc:dd:ee:ff"  # lets "auto" look into the ARP table first
  # device_type: at4pw        # or "ct"; found out where it is not set

poll_secs: 10

mqtt:
  host: "192.168.1.1"
  port: 1883
  node_id: at4pw

log:
  file: /var/log/meter_%Y-%m-%d.jsonl
  max_lines: 10000
  rotate_interval: "24h"
```

The log keeps up to three rotated files, `.1`, `.2` and `.3`.
