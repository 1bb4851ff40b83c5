use ethercat_master::cyclic::CyclicProcess;
use ethercat_master::cyclic::EtherCatSystemTime;
use ethercat_master::cyclic::mailbox_reader;
use ethercat_master::cyclic::mailbox_reader::MailboxReader;
use ethercat_master::cyclic::mailbox_writer::MailboxWriter;
use ethercat_master::cyclic::ReceivedData;
use ethercat_master::cyclic::sdo_downloader::Error;
use ethercat_master::cyclic::sdo_downloader::lift;
use ethercat_master::cyclic::sdo_downloader::response_state;
use ethercat_master::cyclic::sdo_downloader::SdoDownloader;
use ethercat_master::cyclic::sdo_downloader::State;
use ethercat_master::error::EcError;
use ethercat_master::interface::Command;
use ethercat_master::interface::SlaveAddress;
use ethercat_master::network::NetworkDescription;
use ethercat_master::packet::AbortCode;
use ethercat_master::packet::CommandType;
use ethercat_master::packet::MailboxHeader;
use ethercat_master::slave::MailboxSyncManager;
use ethercat_master::slave::Slave;
use ethercat_master::slave::SyncManager;

const MS: u64 = 1_000_000;
const STATION: u16 = 0x1001;
const ADDRESS: SlaveAddress = SlaveAddress::StationAddress(STATION);

fn network(count: u8) -> NetworkDescription {
    let mut desc = NetworkDescription::new();
    let mut other = Slave::default();
    other.configured_address = 0x1000;
    other.mailbox_count = 3;
    desc.push_slave(other);
    let mut slave = Slave::default();
    slave.configured_address = STATION;
    slave.mailbox_count = count;
    slave.info.sm0 =
        Some(SyncManager::MailboxRx(MailboxSyncManager { size: 32, start_address: 0x1000 }));
    slave.info.sm1 =
        Some(SyncManager::MailboxTx(MailboxSyncManager { size: 24, start_address: 0x1080 }));
    desc.push_slave(slave);
    desc
}

fn count_of(desc: &NetworkDescription) -> u8 {
    desc.slave(ADDRESS).unwrap().mailbox_count
}

/// Asks the unit for its command and answers it with `data`.
fn exchange<C: CyclicProcess>(
    unit: &mut C,
    desc: &mut NetworkDescription,
    time: u64,
    data: &[u8],
) -> (Command, Vec<u8>) {
    let (command, payload) = {
        let (command, payload) = unit.next_command(desc, EtherCatSystemTime(time)).unwrap();
        (command, payload.to_vec())
    };
    let reply = ReceivedData { command, data, wkc: 1 };
    unit.recieve_and_process(Some(reply), desc, EtherCatSystemTime(time));
    (command, payload)
}

const EMPTY: [u8; 2] = [0x00, 0x01];
const FULL: [u8; 2] = [0x08, 0x01];
const DISABLED: [u8; 2] = [0x08, 0x00];

/// A response message: mailbox header, CoE header of an SDO response, an SDO
/// header with `specifier`, and `tail` behind it.
fn response(specifier: u8, tail: [u8; 4]) -> Vec<u8> {
    let mut message = vec![10, 0, 0x01, 0x10, 0, 0x13, 0, 0x30, specifier, 0x34, 0x12, 0x02];
    message.extend_from_slice(&tail);
    message.resize(24, 0);
    message
}

/// Drives a download of `data` up to the read of the response, and hands the
/// request that was written back.
fn download_up_to_response(
    unit: &mut SdoDownloader,
    desc: &mut NetworkDescription,
    data: &[u8],
) -> Vec<u8> {
    unit.start(ADDRESS, 0x1234, 0x02, data);
    assert_eq!(unit.wait(), None);
    let (command, payload) = exchange(unit, desc, 0, &EMPTY);
    assert_eq!(command, Command::new(CommandType::FPRD, STATION, 0x080D));
    assert_eq!(payload, vec![0, 0]);
    let (command, _) = exchange(unit, desc, 0, &EMPTY);
    assert_eq!(command, Command::new(CommandType::FPRD, STATION, 0x0805));
    let (command, request) = exchange(unit, desc, 0, &[]);
    assert_eq!(command, Command::new(CommandType::FPWR, STATION, 0x1000));
    assert_eq!(unit.wait(), None);
    let (command, _) = exchange(unit, desc, 0, &FULL);
    assert_eq!(command, Command::new(CommandType::FPRD, STATION, 0x080D));
    assert_eq!(unit.wait(), None);
    request
}

#[test]
fn sdo_download_of_four_bytes() {
    let mut send = [0xEEu8; 64];
    let mut recv = [0xEEu8; 64];
    let mut desc = network(4);
    let mut unit = SdoDownloader::new(&mut send, &mut recv);
    assert_eq!(unit.wait(), None);
    assert!(unit.next_command(&mut desc, EtherCatSystemTime(0)).is_none());

    let request = download_up_to_response(&mut unit, &mut desc, &[0xDE, 0xAD, 0xBE, 0xEF]);
    assert_eq!(request.len(), 32);
    assert_eq!(
        &request[..20],
        &[
            14, 0, 0, 0, 0, 0x53, // mailbox: 14 bytes, to the slave, CoE, counter 5
            0, 0x20, // CoE: SDO request
            0x11, 0x34, 0x12, 0x02, // SDO: download, size stated, 0x1234:02
            4, 0, 0, 0, // four bytes
            0xDE, 0xAD, 0xBE, 0xEF,
        ]
    );
    assert_eq!(count_of(&desc), 5);

    let (command, payload) = exchange(&mut unit, &mut desc, 0, &response(3, [0; 4]));
    assert_eq!(command, Command::new(CommandType::FPRD, STATION, 0x1080));
    assert_eq!(payload, vec![0; 24]);
    assert_eq!(unit.wait(), Some(Ok(())));
    assert_eq!(count_of(&desc), 5);
    assert_eq!(desc.slave(SlaveAddress::SlaveNumber(0)).unwrap().mailbox_count, 3);
    assert_eq!(&unit.mailbox_reader().buffer()[..12], &response(3, [0; 4])[..12]);
    assert!(unit.next_command(&mut desc, EtherCatSystemTime(0)).is_none());
}

#[test]
fn sdo_abort() {
    let mut send = [0u8; 64];
    let mut recv = [0u8; 64];
    let mut desc = network(4);
    let mut unit = SdoDownloader::new(&mut send, &mut recv);
    download_up_to_response(&mut unit, &mut desc, &[0xDE, 0xAD, 0xBE, 0xEF]);
    exchange(&mut unit, &mut desc, 0, &response(4, [0x05, 0x03, 0x00, 0x06]));
    assert_eq!(
        unit.wait(),
        Some(Err(EcError::UnitSpecific(Error::AbortCode(AbortCode(0x06000305)))))
    );
}

#[test]
fn sdo_response_with_another_specifier_is_unexpected() {
    let mut send = [0u8; 64];
    let mut recv = [0u8; 64];
    let mut desc = network(4);
    let mut unit = SdoDownloader::new(&mut send, &mut recv);
    download_up_to_response(&mut unit, &mut desc, &[1]);
    exchange(&mut unit, &mut desc, 0, &response(2, [0; 4]));
    assert_eq!(unit.wait(), Some(Err(EcError::UnitSpecific(Error::UnexpectedResponse))));
}

#[test]
fn response_state_reads_the_specifier() {
    assert_eq!(response_state(&response(3, [0; 4])), State::Complete);
    assert_eq!(response_state(&response(0x0B, [0; 4])), State::Complete);
    assert_eq!(
        response_state(&response(4, [1, 2, 3, 4])),
        State::Error(EcError::UnitSpecific(Error::AbortCode(AbortCode(0x04030201))))
    );
    let unexpected = State::Error(EcError::UnitSpecific(Error::UnexpectedResponse));
    assert_eq!(response_state(&response(4, [1, 2, 3, 4])[..15]), unexpected);
    assert_eq!(response_state(&response(3, [0; 4])[..8]), unexpected);
    assert_eq!(response_state(&response(3, [0; 4])[..9]), State::Complete);
    assert_eq!(response_state(&response(0, [0; 4])), unexpected);
    assert_eq!(response_state(&[]), unexpected);
    assert_eq!(State::default(), State::Idle);
}

#[test]
fn a_message_in_the_mailbox_stops_the_download() {
    let mut send = [0u8; 64];
    let mut recv = [0u8; 64];
    let mut desc = network(4);
    let mut unit = SdoDownloader::new(&mut send, &mut recv);
    unit.start(ADDRESS, 0x1234, 0x02, &[1, 2, 3, 4]);
    exchange(&mut unit, &mut desc, 0, &FULL);
    assert_eq!(unit.wait(), None);
    let (command, _) = exchange(&mut unit, &mut desc, 0, &[0x77; 24]);
    assert_eq!(command, Command::new(CommandType::FPRD, STATION, 0x1080));
    assert_eq!(unit.wait(), Some(Err(EcError::UnitSpecific(Error::MailboxAlreadyExisted))));
    assert_eq!(count_of(&desc), 4);
}

#[test]
fn mailbox_failures_are_handed_on() {
    let mut send = [0u8; 64];
    let mut recv = [0u8; 64];
    let mut desc = network(4);
    let mut unit = SdoDownloader::new(&mut send, &mut recv);
    unit.start(ADDRESS, 0x1234, 0x02, &[1, 2, 3, 4]);
    exchange(&mut unit, &mut desc, 0, &DISABLED);
    assert_eq!(
        unit.wait(),
        Some(Err(EcError::UnitSpecific(Error::Mailbox(mailbox_reader::Error::MailboxDisable))))
    );

    unit.start(ADDRESS, 0x1234, 0x02, &[1, 2, 3, 4]);
    assert!(unit.next_command(&mut desc, EtherCatSystemTime(0)).is_some());
    unit.recieve_and_process(None, &mut desc, EtherCatSystemTime(0));
    assert_eq!(unit.wait(), Some(Err(EcError::LostCommand)));

    unit.start(SlaveAddress::StationAddress(0x2002), 0x1234, 0x02, &[1, 2, 3, 4]);
    assert_eq!(unit.wait(), None);
    assert!(unit.next_command(&mut desc, EtherCatSystemTime(0)).is_none());
    assert_eq!(
        unit.wait(),
        Some(Err(EcError::UnitSpecific(Error::Mailbox(mailbox_reader::Error::NoSlave))))
    );

    assert_eq!(
        Error::from(mailbox_reader::Error::MailboxFull),
        Error::Mailbox(mailbox_reader::Error::MailboxFull)
    );
    assert_eq!(lift(EcError::UnexpectedCommand), EcError::UnexpectedCommand);
    assert_eq!(lift(EcError::UnexpectedWKC(2)), EcError::UnexpectedWKC(2));
    assert_eq!(lift(EcError::LostCommand), EcError::LostCommand);
    assert_eq!(
        lift(EcError::UnitSpecific(mailbox_reader::Error::TimeoutMs(5))),
        EcError::UnitSpecific(Error::Mailbox(mailbox_reader::Error::TimeoutMs(5)))
    );
}

#[test]
fn request_that_does_not_fit_the_send_buffer_fails() {
    let mut send = [0u8; 19];
    let mut recv = [0u8; 64];
    let mut unit = SdoDownloader::new(&mut send, &mut recv);
    unit.start(ADDRESS, 0x1234, 0x02, &[1, 2, 3, 4]);
    assert_eq!(
        unit.wait(),
        Some(Err(EcError::UnitSpecific(Error::Mailbox(mailbox_reader::Error::BufferSmall))))
    );
    let mut wider = [0u8; 20];
    let mut recv = [0u8; 64];
    let mut unit = SdoDownloader::new(&mut wider, &mut recv);
    unit.start(ADDRESS, 0x1234, 0x02, &[1, 2, 3, 4]);
    assert_eq!(unit.wait(), None);
}

#[test]
fn mailbox_counter_cycles_without_zero() {
    let mut send = [0u8; 64];
    let mut recv = [0u8; 64];
    let mut desc = network(0);
    let mut unit = SdoDownloader::new(&mut send, &mut recv);
    let mut seen = vec![];
    for _ in 0..16 {
        let request = download_up_to_response(&mut unit, &mut desc, &[1, 2]);
        exchange(&mut unit, &mut desc, 0, &response(3, [0; 4]));
        assert_eq!(unit.wait(), Some(Ok(())));
        assert_eq!(request[5] % 16, 3);
        assert_eq!(request[5] / 16, count_of(&desc));
        seen.push(count_of(&desc));
    }
    assert_eq!(seen, vec![1, 2, 3, 4, 5, 6, 7, 1, 2, 3, 4, 5, 6, 7, 1, 2]);
}

#[test]
fn increment_mb_count_wraps() {
    let mut slave = Slave::default();
    let mut seen = vec![];
    for _ in 0..9 {
        slave.increment_mb_count();
        seen.push(slave.mailbox_count);
    }
    assert_eq!(seen, vec![1, 2, 3, 4, 5, 6, 7, 1, 2]);
    slave.mailbox_count = 200;
    slave.increment_mb_count();
    assert_eq!(slave.mailbox_count, 1);
}

#[test]
fn asking_twice_while_the_request_starts_counts_once() {
    let mut send = [0u8; 64];
    let mut recv = [0u8; 64];
    let mut desc = network(4);
    let mut unit = SdoDownloader::new(&mut send, &mut recv);
    unit.start(ADDRESS, 0x1234, 0x02, &[1, 2]);
    exchange(&mut unit, &mut desc, 0, &EMPTY);
    let first = {
        let (c, d) = unit.next_command(&mut desc, EtherCatSystemTime(0)).unwrap();
        (c, d.to_vec())
    };
    assert_eq!(first.0, Command::new(CommandType::FPRD, STATION, 0x0805));
    assert_eq!(count_of(&desc), 5);
    for time in 1..4 {
        let again = {
            let (c, d) = unit.next_command(&mut desc, EtherCatSystemTime(time)).unwrap();
            (c, d.to_vec())
        };
        assert_eq!(again, first);
        assert_eq!(count_of(&desc), 5);
    }
    let received = ReceivedData { command: first.0, data: &EMPTY, wkc: 1 };
    unit.recieve_and_process(Some(received), &mut desc, EtherCatSystemTime(4));
    let request = {
        let (_, d) = unit.next_command(&mut desc, EtherCatSystemTime(5)).unwrap();
        d.to_vec()
    };
    assert_eq!(&request[..6], &[12, 0, 0, 0, 0, 0x53]);
    assert_eq!(count_of(&desc), 5);
}

#[test]
fn downloader_asks_the_same_while_no_reply_comes() {
    let mut send = [0u8; 64];
    let mut recv = [0u8; 64];
    let mut desc = network(4);
    let mut unit = SdoDownloader::new(&mut send, &mut recv);
    unit.start(ADDRESS, 0x1234, 0x02, &[1, 2]);
    let replies: [&[u8]; 5] = [&EMPTY, &EMPTY, &[], &FULL, &response(3, [0; 4])];
    for (step, reply) in replies.iter().enumerate() {
        let first = {
            let (c, d) = unit.next_command(&mut desc, EtherCatSystemTime(0)).unwrap();
            (c, d.to_vec())
        };
        let second = {
            let (c, d) = unit.next_command(&mut desc, EtherCatSystemTime(9 + step as u64)).unwrap();
            (c, d.to_vec())
        };
        assert_eq!(first, second);
        let received = ReceivedData { command: first.0, data: reply, wkc: 1 };
        unit.recieve_and_process(Some(received), &mut desc, EtherCatSystemTime(0));
    }
    assert_eq!(unit.wait(), Some(Ok(())));
    assert_eq!(count_of(&desc), 5);
}

#[test]
fn reader_waits_for_a_full_mailbox_until_the_timeout() {
    let mut buffer = [0u8; 64];
    let mut desc = network(1);
    let mut reader = MailboxReader::new(&mut buffer);
    assert_eq!(reader.wait(), None);
    reader.start(ADDRESS, true);
    exchange(&mut reader, &mut desc, 10 * MS, &EMPTY);
    assert_eq!(reader.wait(), None);
    exchange(&mut reader, &mut desc, 2010 * MS, &EMPTY);
    assert_eq!(reader.wait(), None);
    exchange(&mut reader, &mut desc, 2010 * MS + 1, &EMPTY);
    assert_eq!(
        reader.wait(),
        Some(Err(EcError::UnitSpecific(mailbox_reader::Error::TimeoutMs(2000))))
    );

    reader.start(ADDRESS, false);
    exchange(&mut reader, &mut desc, 0, &EMPTY);
    assert_eq!(
        reader.wait(),
        Some(Err(EcError::UnitSpecific(mailbox_reader::Error::MailboxEmpty)))
    );

    reader.start(ADDRESS, true);
    exchange(&mut reader, &mut desc, 0, &EMPTY);
    exchange(&mut reader, &mut desc, 5, &FULL);
    let (command, payload) = exchange(&mut reader, &mut desc, 6, &[9; 24]);
    assert_eq!(command, Command::new(CommandType::FPRD, STATION, 0x1080));
    assert_eq!(payload.len(), 24);
    assert_eq!(reader.wait(), Some(Ok(())));
    assert_eq!(&reader.buffer()[..25], &[&[9u8; 24][..], &[0u8][..]].concat()[..]);
}

#[test]
fn reader_fails_on_what_it_cannot_read() {
    let mut desc = network(1);
    let mut small = [0u8; 23];
    let mut reader = MailboxReader::new(&mut small);
    reader.start(ADDRESS, false);
    assert!(reader.next_command(&mut desc, EtherCatSystemTime(0)).is_none());
    assert_eq!(
        reader.wait(),
        Some(Err(EcError::UnitSpecific(mailbox_reader::Error::BufferSmall)))
    );

    let mut buffer = [0u8; 64];
    let mut reader = MailboxReader::new(&mut buffer);
    reader.start(SlaveAddress::SlaveNumber(0), false);
    assert!(reader.next_command(&mut desc, EtherCatSystemTime(0)).is_none());
    assert_eq!(
        reader.wait(),
        Some(Err(EcError::UnitSpecific(mailbox_reader::Error::MailboxNotAvailable)))
    );
    reader.start(SlaveAddress::SlaveNumber(7), false);
    assert!(reader.next_command(&mut desc, EtherCatSystemTime(0)).is_none());
    assert_eq!(reader.wait(), Some(Err(EcError::UnitSpecific(mailbox_reader::Error::NoSlave))));

    reader.start(SlaveAddress::SlaveNumber(1), false);
    let (command, _) = {
        let (c, d) = reader.next_command(&mut desc, EtherCatSystemTime(0)).unwrap();
        (c, d.to_vec())
    };
    assert_eq!(command, Command::new(CommandType::APRD, 0xFFFF, 0x080D));
    let reply = ReceivedData { command, data: &[0x08], wkc: 1 };
    reader.recieve_and_process(Some(reply), &mut desc, EtherCatSystemTime(0));
    assert_eq!(reader.wait(), Some(Err(EcError::UnexpectedCommand)));

    reader.start(ADDRESS, false);
    let (command, _) = {
        let (c, d) = reader.next_command(&mut desc, EtherCatSystemTime(0)).unwrap();
        (c, d.to_vec())
    };
    let reply = ReceivedData { command, data: &FULL, wkc: 2 };
    reader.recieve_and_process(Some(reply), &mut desc, EtherCatSystemTime(0));
    assert_eq!(reader.wait(), Some(Err(EcError::UnexpectedWKC(2))));

    reader.start(ADDRESS, false);
    exchange(&mut reader, &mut desc, 0, &FULL);
    exchange(&mut reader, &mut desc, 0, &[1; 65]);
    assert_eq!(
        reader.wait(),
        Some(Err(EcError::UnitSpecific(mailbox_reader::Error::BufferSmall)))
    );
}

#[test]
fn writer_waits_for_an_empty_mailbox_until_the_timeout() {
    let mut buffer = [0u8; 64];
    let mut desc = network(1);
    let mut writer = MailboxWriter::new(&mut buffer);
    assert_eq!(writer.wait(), None);
    let mut header = MailboxHeader::new();
    header.set_length(4);
    header.set_address(0x0102);
    header.set_prioriry(1);
    header.set_mailbox_type(3);
    header.set_count(7);
    assert!(writer.set_header(header));
    assert!(writer.fill(6, &[1, 2, 3, 4]));
    assert!(!writer.fill(61, &[1, 2, 3, 4]));
    assert!(!writer.fill(65, &[]));
    assert!(writer.fill(64, &[]));
    assert_eq!(&writer.buffer()[..11], &[4, 0, 0x02, 0x01, 0x40, 0x73, 1, 2, 3, 4, 0]);

    writer.start(ADDRESS, true);
    exchange(&mut writer, &mut desc, 10 * MS, &FULL);
    assert_eq!(writer.wait(), None);
    exchange(&mut writer, &mut desc, 110 * MS, &FULL);
    assert_eq!(writer.wait(), None);
    exchange(&mut writer, &mut desc, 111 * MS, &FULL);
    assert_eq!(
        writer.wait(),
        Some(Err(EcError::UnitSpecific(mailbox_reader::Error::TimeoutMs(100))))
    );

    writer.start(ADDRESS, false);
    exchange(&mut writer, &mut desc, 0, &FULL);
    assert_eq!(
        writer.wait(),
        Some(Err(EcError::UnitSpecific(mailbox_reader::Error::MailboxFull)))
    );

    writer.start(ADDRESS, false);
    let (command, _) = exchange(&mut writer, &mut desc, 0, &EMPTY);
    assert_eq!(command, Command::new(CommandType::FPRD, STATION, 0x0805));
    let (command, payload) = exchange(&mut writer, &mut desc, 0, &[]);
    assert_eq!(command, Command::new(CommandType::FPWR, STATION, 0x1000));
    assert_eq!(payload.len(), 32);
    assert_eq!(&payload[..10], &[4, 0, 0x02, 0x01, 0x40, 0x73, 1, 2, 3, 4]);
    assert_eq!(writer.wait(), Some(Ok(())));

    writer.start(ADDRESS, false);
    exchange(&mut writer, &mut desc, 0, &DISABLED);
    assert_eq!(
        writer.wait(),
        Some(Err(EcError::UnitSpecific(mailbox_reader::Error::MailboxDisable)))
    );
    writer.start(SlaveAddress::SlaveNumber(0), false);
    assert!(writer.next_command(&mut desc, EtherCatSystemTime(0)).is_none());
    assert_eq!(
        writer.wait(),
        Some(Err(EcError::UnitSpecific(mailbox_reader::Error::MailboxNotAvailable)))
    );
    writer.start(SlaveAddress::StationAddress(9), false);
    assert!(writer.next_command(&mut desc, EtherCatSystemTime(0)).is_none());
    assert_eq!(writer.wait(), Some(Err(EcError::UnitSpecific(mailbox_reader::Error::NoSlave))));

    let mut small = [0u8; 4];
    let mut tiny = MailboxWriter::new(&mut small);
    assert!(!tiny.set_header(header));
    assert_eq!(tiny.buffer(), &[0, 0, 0, 0]);
    tiny.start(ADDRESS, false);
    assert!(tiny.next_command(&mut desc, EtherCatSystemTime(0)).is_none());
    assert_eq!(
        tiny.wait(),
        Some(Err(EcError::UnitSpecific(mailbox_reader::Error::BufferSmall)))
    );
}
