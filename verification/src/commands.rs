//! Scanner commands: how each tool is invoked, and the helpers that read
//! their targets and output.
pub mod curl;
pub mod fscan;
pub mod httpx;
pub mod nmap;
pub mod nuclei;
pub mod ping;
pub mod registry;
pub mod rules;
pub mod service_probes;
pub mod port_scan;
