use ble_bridge::{
    connect, disconnect, scan, send, send_outcome, stop_scan, status_code, BleError, Command, CommandSender,
};
use tokio::sync::mpsc::unbounded_channel;

#[test]
fn commands_before_init_are_refused() {
    let mut sender: CommandSender<u8> = CommandSender::new();
    assert!(!sender.is_initialized());
    assert_eq!(scan(&mut sender, 1, vec!["x".to_string()]), Err(BleError::TxNotInitialized));
    assert_eq!(connect(&mut sender, "AA".to_string()), Err(BleError::TxNotInitialized));
    assert_eq!(disconnect(&mut sender, "AA".to_string()), Err(BleError::TxNotInitialized));
    assert_eq!(stop_scan(&mut sender), Err(BleError::TxNotInitialized));
    assert_eq!(send(&mut sender, Command::StopScan), Err(BleError::TxNotInitialized));
}

#[test]
fn commands_reach_the_loop_in_order() {
    let (tx, mut rx) = unbounded_channel::<Command<u8>>();
    let mut sender: CommandSender<u8> = CommandSender::new();
    assert_eq!(sender.set(tx), Ok(()));
    assert!(sender.is_initialized());
    assert_eq!(scan(&mut sender, 9, vec!["f".to_string()]), Ok(()));
    assert_eq!(connect(&mut sender, "dev-1".to_string()), Ok(()));
    assert_eq!(disconnect(&mut sender, "dev-2".to_string()), Ok(()));
    assert_eq!(stop_scan(&mut sender), Ok(()));
    match rx.try_recv().unwrap() {
        Command::Scan { sink, filter } => {
            assert_eq!(sink, 9);
            assert_eq!(filter, vec!["f".to_string()]);
        }
        _ => panic!("expected a scan"),
    }
    assert!(matches!(rx.try_recv().unwrap(), Command::Connect { id } if id == "dev-1"));
    assert!(matches!(rx.try_recv().unwrap(), Command::Disconnect { id } if id == "dev-2"));
    assert!(matches!(rx.try_recv().unwrap(), Command::StopScan));
    assert!(rx.try_recv().is_err());
}

#[test]
fn second_install_is_refused() {
    let (tx1, mut rx1) = unbounded_channel::<Command<u8>>();
    let (tx2, mut rx2) = unbounded_channel::<Command<u8>>();
    let mut sender: CommandSender<u8> = CommandSender::new();
    assert_eq!(sender.set(tx1), Ok(()));
    assert_eq!(sender.set(tx2), Err(BleError::TxAlreadySet));
    assert_eq!(stop_scan(&mut sender), Ok(()));
    assert!(matches!(rx1.try_recv().unwrap(), Command::StopScan));
    assert!(rx2.try_recv().is_err());
}

#[test]
fn closed_channel_is_reported() {
    let (tx, rx) = unbounded_channel::<Command<u8>>();
    let mut sender: CommandSender<u8> = CommandSender::new();
    assert_eq!(sender.set(tx), Ok(()));
    drop(rx);
    assert_eq!(connect(&mut sender, "dev".to_string()), Err(BleError::ChannelClosed));
}

#[test]
fn send_outcome_maps_refusal() {
    assert_eq!(send_outcome::<u8>(None), Ok(()));
    assert_eq!(send_outcome::<u8>(Some(Command::StopScan)), Err(BleError::ChannelClosed));
}

#[test]
fn command_names() {
    assert_eq!(Command::<u8>::Scan { sink: 0, filter: vec![] }.name(), "Scan");
    assert_eq!(Command::<u8>::StopScan.name(), "StopScan");
    assert_eq!(Command::<u8>::Connect { id: "a".to_string() }.name(), "Connect");
    assert_eq!(Command::<u8>::Disconnect { id: "a".to_string() }.name(), "Disconnect");
}

#[test]
fn error_messages() {
    assert_eq!(BleError::TxNotInitialized.message(), "TxNotInitialized");
    assert_eq!(BleError::TxAlreadySet.message(), "TxAlreadySet");
    assert_eq!(BleError::RuntimeNotInitialized.message(), "RuntimeNotInitialized");
    assert_eq!(BleError::UnknownPeripheral.message(), "UnknownPeripheral(id)");
    assert_eq!(BleError::ChannelClosed.message(), "channel closed");
    assert_eq!(BleError::NoListeners.message(), "No listeners");
}

#[test]
fn init_status_codes() {
    assert_eq!(status_code::<BleError>(&Ok(())), 0);
    assert_eq!(status_code(&Err(BleError::TxAlreadySet)), 1);
    assert_eq!(status_code(&Err(BleError::RuntimeNotInitialized)), 1);
}

#[test]
fn stop_scan_twice_queues_two_stops() {
    let (tx, mut rx) = unbounded_channel::<Command<u8>>();
    let mut sender: CommandSender<u8> = CommandSender::new();
    assert_eq!(sender.set(tx), Ok(()));
    assert_eq!(stop_scan(&mut sender), Ok(()));
    assert_eq!(stop_scan(&mut sender), Ok(()));
    assert!(matches!(rx.try_recv().unwrap(), Command::StopScan));
    assert!(matches!(rx.try_recv().unwrap(), Command::StopScan));
    assert!(rx.try_recv().is_err());
}
