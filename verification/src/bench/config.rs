//! The configuration files that a run writes.
use vstd::prelude::*;

verus! {

/// The configuration of the DDS domain, up to whether shared memory is used.
pub const XML_HEAD: &'static str = r#"<?xml version="1.0" encoding="UTF-8" ?>
<CycloneDDS xmlns="https://cdds.io/config">
  <Domain id="1">
    <General>
      <Interfaces>
        <NetworkInterface name="lo" priority="default" />
      </Interfaces>
      <AllowMulticast>true</AllowMulticast>
      <MaxMessageSize>14720B</MaxMessageSize>
      <FragmentSize>1344B</FragmentSize>
    </General>
    <SharedMemory>
      <Enable>"#;

/// The rest of it.
pub const XML_TAIL: &'static str = r#"</Enable>
    </SharedMemory>
  </Domain>
</CycloneDDS>"#;

/// The memory pools of the shared-memory daemon.
pub const ROUDI_CONFIG: &'static str = r#"[general]
version = 1

[[segment]]

[[segment.mempool]]
size = 128
count = 10000

[[segment.mempool]]
size = 1024
count = 5000

[[segment.mempool]]
size = 16384
count = 1000

[[segment.mempool]]
size = 131072
count = 200

[[segment.mempool]]
size = 524288
count = 50

[[segment.mempool]]
size = 1048576
count = 30

[[segment.mempool]]
size = 4194304
count = 10
"#;

/// The configuration of the DDS domain.
pub fn xml_config(shm: bool) -> (r: String)
    ensures
        r@ == XML_HEAD@ + (if shm {
            "true"@
        } else {
            "false"@
        }) + XML_TAIL@,
{
    let mut s = XML_HEAD.to_owned();
    if shm {
        s.append("true");
    } else {
        s.append("false");
    }
    s.append(XML_TAIL);
    s
}

/// The configuration of the shared-memory daemon.
pub fn roudi_config() -> (r: &'static str)
    ensures
        r@ == ROUDI_CONFIG@,
{
    ROUDI_CONFIG
}

} // verus!
