//! The transport dispatch coordinator: one slot per transport kind (today a
//! single Bluetooth LE channel), availability polling that reports changes
//! only, and fan-out of a packet to every transport with one result each.
use vstd::prelude::*;

verus! {

/// The BLE service UUID the radio listens on.
pub const METAMESH_BLE_UUID: &'static str = "6ba7b810-9dad-11d1-80b4-00c04fd430c8";

/// Why a transport could not be used.
#[derive(Debug, Clone, PartialEq, Eq)]
pub enum TransportError {
    BluetoothNotAvailable,
    BluetoothNotEnabled,
    ConnectionFailed(String),
    SendFailed(String),
}

fn concat(a: &str, b: &str) -> (r: String)
    ensures
        r@ == a@ + b@,
{
    let mut s = String::from_str(a);
    s.append(b);
    s
}

impl TransportError {
    /// A human-readable description.
    pub fn message(&self) -> (r: String)
        ensures
            r@ == match self {
                TransportError::BluetoothNotAvailable => "Bluetooth not available on this platform"@,
                TransportError::BluetoothNotEnabled => "Bluetooth is not enabled"@,
                TransportError::ConnectionFailed(m) => "Connection failed: "@ + m@,
                TransportError::SendFailed(m) => "Send failed: "@ + m@,
            },
    {
        match self {
            TransportError::BluetoothNotAvailable => String::from_str(
                "Bluetooth not available on this platform",
            ),
            TransportError::BluetoothNotEnabled => String::from_str("Bluetooth is not enabled"),
            TransportError::ConnectionFailed(m) => concat("Connection failed: ", m.as_str()),
            TransportError::SendFailed(m) => concat("Send failed: ", m.as_str()),
        }
    }
}

/// The Bluetooth LE transport. Whether the radio hardware is present is probed
/// by the platform and handed in.
#[derive(Debug)]
pub struct BleTransport {
    enabled: bool,
    last_status: bool,
}

impl BleTransport {
    pub closed spec fn spec_enabled(&self) -> bool {
        self.enabled
    }

    /// Whether the last status check found the radio present.
    pub closed spec fn spec_last_status(&self) -> bool {
        self.last_status
    }

    /// A transport that has not been started.
    pub fn new() -> (r: Self)
        ensures
            !r.spec_enabled(),
            !r.spec_last_status(),
    {
        BleTransport { enabled: false, last_status: false }
    }

    /// Brings the listener up when the radio is present.
    pub fn start_listener(&mut self, radio_present: bool) -> (r: Result<(), TransportError>)
        ensures
            radio_present ==> r is Ok && final(self).spec_enabled() && final(self).spec_last_status(),
            !radio_present ==> r == Err::<(), _>(TransportError::BluetoothNotAvailable)
                && final(self).spec_enabled() == old(self).spec_enabled()
                && final(self).spec_last_status() == old(self).spec_last_status(),
    {
        if radio_present {
            self.enabled = true;
            self.last_status = true;
            Ok(())
        } else {
            Err(TransportError::BluetoothNotAvailable)
        }
    }

    /// Records a fresh probe of the radio (only once started) and says whether
    /// the transport is usable.
    pub fn monitor_status(&mut self, radio_present: bool) -> (r: bool)
        ensures
            final(self).spec_enabled() == old(self).spec_enabled(),
            final(self).spec_last_status() == if old(self).spec_enabled() {
                radio_present
            } else {
                old(self).spec_last_status()
            },
            r == (final(self).spec_enabled() && final(self).spec_last_status()),
    {
        if self.enabled {
            self.last_status = radio_present;
        }
        self.enabled && self.last_status
    }

    /// Hands a packet to the radio; fails when the transport is not enabled.
    pub fn send_packet(&self, packet_bytes: &[u8]) -> (r: Result<(), TransportError>)
        ensures
            self.spec_enabled() ==> r is Ok,
            !self.spec_enabled() ==> (r matches Err(TransportError::SendFailed(m)) && m@
                == "BLE transport not enabled"@),
    {
        if !self.enabled {
            return Err(TransportError::SendFailed(String::from_str("BLE transport not enabled")));
        }
        Ok(())
    }

    pub fn is_enabled(&self) -> (r: bool)
        ensures
            r == self.spec_enabled(),
    {
        self.enabled
    }
}


/// The kinds of transport the coordinator knows.
#[derive(Debug, Clone, Copy, PartialEq, Eq, Structural)]
pub enum TransportKind {
    Ble,
}

/// What happened when a packet was handed to one transport.
#[derive(Debug, Clone, PartialEq, Eq)]
pub enum DispatchOutcome {
    Sent,
    Failed(TransportError),
    /// The transport is not enabled, so no attempt was made.
    NotAvailable,
}

/// The outcome of one dispatch on one transport.
#[derive(Debug, Clone, PartialEq, Eq)]
pub struct DispatchResult {
    pub transport: TransportKind,
    pub outcome: DispatchOutcome,
}

impl DispatchResult {
    /// Whether the packet went out on this transport.
    pub fn succeeded(&self) -> (r: bool)
        ensures
            r == (self.outcome is Sent),
    {
        match self.outcome {
            DispatchOutcome::Sent => true,
            _ => false,
        }
    }

    /// A one-line description such as `BLE: Sent successfully`.
    pub fn describe(&self) -> (r: String)
        ensures
            r@ == match self.outcome {
                DispatchOutcome::Sent => "BLE: Sent successfully"@,
                DispatchOutcome::Failed(e) => "BLE: Failed - "@ + transport_error_text(e),
                DispatchOutcome::NotAvailable => "BLE: Not available"@,
            },
    {
        match &self.outcome {
            DispatchOutcome::Sent => String::from_str("BLE: Sent successfully"),
            DispatchOutcome::Failed(e) => {
                let m = e.message();
                concat("BLE: Failed - ", m.as_str())
            },
            DispatchOutcome::NotAvailable => String::from_str("BLE: Not available"),
        }
    }
}

/// The text of a transport error.
pub open spec fn transport_error_text(e: TransportError) -> Seq<char> {
    match e {
        TransportError::BluetoothNotAvailable => "Bluetooth not available on this platform"@,
        TransportError::BluetoothNotEnabled => "Bluetooth is not enabled"@,
        TransportError::ConnectionFailed(m) => "Connection failed: "@ + m@,
        TransportError::SendFailed(m) => "Send failed: "@ + m@,
    }
}

/// Tracks which transports are usable and fans packets out to them.
#[derive(Debug)]
pub struct TransportMonitor {
    ble_transport: BleTransport,
    last_available_count: u8,
}

impl TransportMonitor {
    /// How many transports are enabled.
    pub closed spec fn enabled_count(&self) -> nat {
        if self.ble_transport.spec_enabled() { 1 } else { 0 }
    }

    /// The count of usable transports last reported.
    pub closed spec fn last_count(&self) -> u8 {
        self.last_available_count
    }

    /// How many transports the last status check found usable.
    pub closed spec fn usable_count(&self) -> u8 {
        if self.ble_transport.spec_enabled() && self.ble_transport.spec_last_status() { 1 } else { 0 }
    }

    /// A coordinator with no transport started and nothing reported.
    pub fn new() -> (r: Self)
        ensures
            r.enabled_count() == 0,
            r.last_count() == 0,
    {
        TransportMonitor { ble_transport: BleTransport::new(), last_available_count: 0 }
    }

    /// Re-checks each transport and counts the usable ones.
    fn check_transports(&mut self, radio_present: bool) -> (r: u8)
        ensures
            final(self).enabled_count() == old(self).enabled_count(),
            final(self).last_count() == old(self).last_count(),
            r == final(self).usable_count(),
            r == (if old(self).enabled_count() == 1 && radio_present { 1u8 } else { 0u8 }),
    {
        let mut available: u8 = 0;
        if self.ble_transport.monitor_status(radio_present) {
            available = available + 1;
        }
        available
    }

    /// Tries to bring every transport up and records how many are usable; a
    /// transport that fails to start stays disabled. Returns that count.
    pub fn start(&mut self, radio_present: bool) -> (r: u8)
        ensures
            final(self).enabled_count() == (if radio_present { 1nat } else { old(self).enabled_count() }),
            r == (if final(self).enabled_count() == 1 && radio_present { 1u8 } else { 0u8 }),
            final(self).last_count() == r,
    {
        let _ = self.ble_transport.start_listener(radio_present);
        let count = self.check_transports(radio_present);
        self.last_available_count = count;
        count
    }

    /// Re-checks availability; returns the new count of usable transports only
    /// when it differs from the last one reported.
    pub fn poll_availability(&mut self, radio_present: bool) -> (r: Option<u8>)
        ensures
            final(self).enabled_count() == old(self).enabled_count(),
            ({
                let count = if old(self).enabled_count() == 1 && radio_present { 1u8 } else { 0u8 };
                &&& final(self).last_count() == count
                &&& r == if count != old(self).last_count() { Some(count) } else { None::<u8> }
            }),
    {
        let count = self.check_transports(radio_present);
        if count != self.last_available_count {
            self.last_available_count = count;
            Some(count)
        } else {
            None
        }
    }

    /// Hands a packet to every transport and returns one result per transport,
    /// whatever the individual outcomes. With no transport enabled, no attempt
    /// succeeds and no error is raised.
    pub fn send_to_all_transports(&mut self, packet_bytes: &[u8]) -> (r: Vec<DispatchResult>)
        ensures
            final(self).enabled_count() == old(self).enabled_count(),
            final(self).last_count() == old(self).last_count(),
            final(self).usable_count() == old(self).usable_count(),
            r@.len() == 1,
            r@[0].transport == TransportKind::Ble,
            r@[0].outcome == if old(self).enabled_count() == 1 {
                DispatchOutcome::Sent
            } else {
                DispatchOutcome::NotAvailable
            },
            old(self).enabled_count() == 0 ==> forall|i: int| 0 <= i < r@.len() ==> !(#[trigger] r@[i].outcome is Sent),
    {
        let mut results: Vec<DispatchResult> = Vec::new();
        if self.ble_transport.is_enabled() {
            let outcome = match self.ble_transport.send_packet(packet_bytes) {
                Ok(()) => DispatchOutcome::Sent,
                Err(e) => DispatchOutcome::Failed(e),
            };
            results.push(DispatchResult { transport: TransportKind::Ble, outcome });
        } else {
            let outcome = DispatchOutcome::NotAvailable;
            results.push(DispatchResult { transport: TransportKind::Ble, outcome });
        }
        results
    }
}

} // verus!
