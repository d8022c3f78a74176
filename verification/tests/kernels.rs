use see_k::kernel::{
    ClientAction, ClientEvent, ClientKernel, ClientNext, ClientWait, KernelError, ServerAction,
    ServerEvent, ServerKernel, ServerWait, MAILBOX_CAPACITY, MAX_PENDING_SETUPS, SERVER_STOPPED,
    SETUP_TIMEOUT_SECS,
};

type Server = ServerKernel<String>;
type Event = ServerEvent<&'static str, String>;
type Client = ClientKernel<&'static str>;
type Seen = ClientEvent<&'static str, &'static str>;

fn waits(client: &Client) -> Vec<ClientWait> {
    match client.next() {
        ClientNext::Wait(waits) => waits,
        ClientNext::Stop => panic!("the client stops"),
    }
}

/// Lets the server set a connection up and start it; returns its number.
fn set_up(server: &mut Server) -> u64 {
    assert!(matches!(server.run(Event::Incoming { open: true }), ServerAction::Accept));
    let c_id = match server.run(Event::SetupEnded(Some("prepared"))) {
        ServerAction::Start { prepared: "prepared", c_id } => c_id,
        _ => panic!("the connection is started"),
    };
    assert!(server.waits().is_empty());
    assert!(matches!(server.run(Event::Started(format!("handle {c_id}"))), ServerAction::Wait));
    c_id
}

fn stopped(server: &mut Server, event: Event) -> (bool, Result<(), &'static str>) {
    let action = server.run(event);
    assert!(server.waits().is_empty());
    match action {
        ServerAction::Stop { close, result } => (close, result.map_err(|e| e.message())),
        _ => panic!("the server goes on"),
    }
}

#[test]
fn kernel_constants_are_the_documented_ones() {
    assert_eq!(SETUP_TIMEOUT_SECS, 30);
    assert_eq!(MAX_PENDING_SETUPS, 128);
    assert_eq!(MAILBOX_CAPACITY, 8000);
    assert_eq!(SERVER_STOPPED, "seek server stopped");
    assert_eq!(KernelError::IdsExhausted.message(), "seek connection id exhausted");
    assert_eq!(KernelError::ReceiverClosed.message(), "seek new-connection receiver closed");
}

#[test]
fn a_server_publishes_connections_in_order() {
    let mut server = Server::new(0);
    for id in 0..3 {
        assert_eq!(server.next_c_id(), id);
        assert_eq!(set_up(&mut server), id);
        match server.run(Event::Permit { granted: true }) {
            ServerAction::Publish(handle) => assert_eq!(handle, format!("handle {id}")),
            _ => panic!("the connection is published"),
        }
    }
    assert_eq!(
        server.waits(),
        vec![
            ServerWait::CancelRun,
            ServerWait::ReceiverClosed,
            ServerWait::Session,
            ServerWait::Incoming,
        ]
    );
    for _ in 0..3 {
        assert!(matches!(server.run(Event::SessionEnded), ServerAction::Wait));
    }
    assert!(!server.waits().contains(&ServerWait::Session));
}

#[test]
fn a_full_mailbox_holds_one_connection_back_and_not_the_shutdown() {
    let mut server = Server::new(0);
    set_up(&mut server);
    assert!(matches!(server.run(Event::Incoming { open: true }), ServerAction::Accept));
    assert_eq!(
        server.waits(),
        vec![
            ServerWait::CancelRun,
            ServerWait::ReceiverClosed,
            ServerWait::Session,
            ServerWait::Permit,
            ServerWait::Incoming,
        ]
    );
    assert_eq!(stopped(&mut server, Event::CancelRun), (true, Ok(())));
}

#[test]
fn a_server_runs_a_bounded_number_of_setups() {
    let mut server = Server::new(0);
    assert!(!server.waits().contains(&ServerWait::Setup));
    for _ in 0..128 {
        assert!(server.waits().contains(&ServerWait::Incoming));
        server.run(Event::Incoming { open: true });
    }
    assert_eq!(
        server.waits(),
        vec![ServerWait::CancelRun, ServerWait::ReceiverClosed, ServerWait::Setup]
    );
    assert!(matches!(server.run(Event::SetupEnded(None)), ServerAction::Wait));
    assert!(server.waits().contains(&ServerWait::Incoming));
}

#[test]
fn a_rejected_connection_costs_no_number() {
    let mut server = Server::new(5);
    server.run(Event::Incoming { open: true });
    assert!(matches!(server.run(Event::SetupEnded(None)), ServerAction::Wait));
    assert_eq!(set_up(&mut server), 5);
    assert_eq!(server.next_c_id(), 6);
}

#[test]
fn a_server_stops_for_four_reasons() {
    assert_eq!(stopped(&mut Server::new(0), Event::CancelRun), (true, Ok(())));
    assert_eq!(stopped(&mut Server::new(0), Event::Incoming { open: false }), (true, Ok(())));
    let closed = (true, Err("seek new-connection receiver closed"));
    assert_eq!(stopped(&mut Server::new(0), Event::ReceiverClosed), closed);
    let mut server = Server::new(0);
    set_up(&mut server);
    assert_eq!(stopped(&mut server, Event::Permit { granted: false }), closed);
}

#[test]
fn a_server_gives_up_when_numbers_run_out() {
    let mut server = Server::new(u64::MAX - 1);
    assert_eq!(set_up(&mut server), u64::MAX - 1);
    server.run(Event::Permit { granted: true });
    server.run(Event::Incoming { open: true });
    let exhausted = (false, Err("seek connection id exhausted"));
    assert_eq!(stopped(&mut server, Event::SetupEnded(Some("prepared"))), exhausted);
    assert_eq!(server.next_c_id(), u64::MAX);
}

#[test]
fn a_stalled_dial_does_not_block_another() {
    let mut client = Client::new(0);
    for (id, request) in [(0, "stalled"), (1, "good")] {
        assert!(waits(&client).contains(&ClientWait::Request));
        match client.run(Seen::Request(Some(request))) {
            ClientAction::Dial { request: dialed, c_id } => assert_eq!((dialed, c_id), (request, id)),
            _ => panic!("the request is dialed"),
        }
    }
    assert!(matches!(client.run(Seen::SetupEnded(Some(("good", 1)))), ClientAction::Wait));
    assert_eq!(
        waits(&client),
        vec![ClientWait::ReceiverClosed, ClientWait::Permit, ClientWait::Request]
    );
    match client.run(Seen::Permit { granted: true }) {
        ClientAction::Publish { prepared, c_id } => assert_eq!((prepared, c_id), ("good", 1)),
        _ => panic!("the connection is published"),
    }
    assert_eq!(
        waits(&client),
        vec![
            ClientWait::ReceiverClosed,
            ClientWait::Session,
            ClientWait::Setup,
            ClientWait::Request,
        ]
    );
}

#[test]
fn a_client_stops_when_all_requests_are_dealt_with() {
    let mut client = Client::new(0);
    client.run(Seen::Request(Some("a")));
    assert!(matches!(client.run(Seen::Request(None)), ClientAction::Wait));
    assert_eq!(waits(&client), vec![ClientWait::ReceiverClosed, ClientWait::Setup]);
    client.run(Seen::SetupEnded(Some(("a", 0))));
    assert_eq!(waits(&client), vec![ClientWait::ReceiverClosed, ClientWait::Permit]);
    assert!(matches!(client.run(Seen::Permit { granted: true }), ClientAction::Publish { .. }));
    assert!(matches!(client.next(), ClientNext::Stop));
}

#[test]
fn a_failed_dial_ends_a_client_without_a_connection() {
    let mut client = Client::new(0);
    client.run(Seen::Request(Some("refused")));
    client.run(Seen::Request(None));
    assert!(matches!(client.run(Seen::SetupEnded(None)), ClientAction::Wait));
    assert!(matches!(client.next(), ClientNext::Stop));
    assert_eq!(client.next_c_id(), 1);
}

#[test]
fn sessions_outlive_their_client() {
    let mut client = Client::new(0);
    let action = client.run(Seen::ReceiverClosed);
    assert!(matches!(action, ClientAction::Stop { detach: true, result: Ok(()) }));
    assert!(matches!(client.next(), ClientNext::Stop));
    let mut client = Client::new(0);
    client.run(Seen::Request(Some("a")));
    client.run(Seen::SetupEnded(Some(("a", 0))));
    let action = client.run(Seen::Permit { granted: false });
    assert!(matches!(action, ClientAction::Stop { detach: true, result: Ok(()) }));
}

#[test]
fn a_client_gives_up_when_numbers_run_out() {
    let mut client = Client::new(u64::MAX);
    let action = client.run(Seen::Request(Some("a")));
    assert!(matches!(
        action,
        ClientAction::Stop { detach: false, result: Err(KernelError::IdsExhausted) }
    ));
    assert_eq!(client.next_c_id(), u64::MAX);
}

#[test]
fn a_client_runs_a_bounded_number_of_dials() {
    let mut client = Client::new(0);
    for id in 0..128 {
        assert!(waits(&client).contains(&ClientWait::Request));
        let action = client.run(Seen::Request(Some("a")));
        assert!(matches!(action, ClientAction::Dial { c_id, .. } if c_id == id));
    }
    assert_eq!(waits(&client), vec![ClientWait::ReceiverClosed, ClientWait::Setup]);
}

#[test]
fn ended_sessions_are_no_longer_waited_for() {
    let mut client = Client::new(3);
    client.run(Seen::Request(Some("a")));
    client.run(Seen::SetupEnded(Some(("a", 3))));
    client.run(Seen::Permit { granted: true });
    assert!(waits(&client).contains(&ClientWait::Session));
    assert!(matches!(client.run(Seen::SessionEnded), ClientAction::Wait));
    assert!(!waits(&client).contains(&ClientWait::Session));
}

#[test]
fn connections_keep_the_numbers_of_their_requests() {
    let mut client = Client::new(5);
    for (request, number) in [("a", 5), ("b", 6), ("c", 7)] {
        match client.run(Seen::Request(Some(request))) {
            ClientAction::Dial { request: dialed, c_id } => {
                assert_eq!((dialed, c_id), (request, number))
            }
            _ => panic!("the request is dialed"),
        }
    }
    let mut published = Vec::new();
    for ended in [Some(("for c", 7)), None, Some(("for a", 5))] {
        assert!(matches!(client.run(Seen::SetupEnded(ended)), ClientAction::Wait));
        if ended.is_some() {
            match client.run(Seen::Permit { granted: true }) {
                ClientAction::Publish { prepared, c_id } => published.push((prepared, c_id)),
                _ => panic!("the connection is published"),
            }
        }
    }
    assert_eq!(published, [("for c", 7), ("for a", 5)]);
    assert_eq!(client.next_c_id(), 8);
}
