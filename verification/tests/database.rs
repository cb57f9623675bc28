use cardamon::database::{ConnectAction, ConnectError, ConnectEvent, Connector, DbBackend, Server};
use cardamon::db_connect;

type Action = ConnectAction<&'static str>;

fn begin(name: Option<&str>) -> (Connector, Action) {
    db_connect("mysql://root@localhost", name)
}

#[test]
fn first_action_connects_to_the_address() {
    let (_, action) = begin(Some("cardamon"));
    assert!(matches!(action, ConnectAction::Connect(url) if url == "mysql://root@localhost"));
}

#[test]
fn sqlite_needs_one_connection() {
    for name in [None, Some("cardamon")] {
        let (connector, _) = begin(name);
        let (connector, action): (_, Action) =
            connector.step(ConnectEvent::Connected(DbBackend::Sqlite));
        assert!(matches!(connector, Connector::Finished));
        assert!(matches!(action, ConnectAction::UseConnection));
    }
}

#[test]
fn postgres_creates_and_enters_the_database() {
    for failed in [false, true] {
        let (connector, _) = begin(Some("cardamon"));
        let (connector, action): (_, Action) =
            connector.step(ConnectEvent::Connected(DbBackend::Postgres));
        assert!(
            matches!(action, ConnectAction::Execute(sql) if sql == "CREATE DATABASE \"cardamon\";")
        );
        let event = if failed {
            ConnectEvent::ExecuteFailed("exists")
        } else {
            ConnectEvent::Executed
        };
        let (connector, action) = connector.step(event);
        assert!(
            matches!(action, ConnectAction::Connect(url) if url == "mysql://root@localhost/cardamon")
        );
        let (_, action): (_, Action) = connector.step(ConnectEvent::Connected(DbBackend::Postgres));
        assert!(matches!(action, ConnectAction::UseConnection));
    }
}

#[test]
fn mysql_creates_and_enters_the_database() {
    let (connector, _) = begin(Some("cardamon"));
    let (connector, action): (_, Action) =
        connector.step(ConnectEvent::Connected(DbBackend::MySql));
    assert!(matches!(
        action,
        ConnectAction::Execute(sql) if sql == "CREATE DATABASE IF NOT EXISTS `cardamon`;"
    ));
    let (connector, action): (_, Action) = connector.step(ConnectEvent::Executed);
    assert!(
        matches!(action, ConnectAction::Connect(url) if url == "mysql://root@localhost/cardamon")
    );
    let (_, action) = connector.step(ConnectEvent::ConnectFailed("refused"));
    match action {
        ConnectAction::Fail(error) => {
            assert!(matches!(error, ConnectError::Database(Server::MySql, "refused")));
            assert_eq!(error.message(), Some("Error creating mysql database.".to_string()));
        }
        other => panic!("{:?}", other),
    }
}

#[test]
fn mysql_create_failure_ends_the_work() {
    let (connector, _) = begin(Some("cardamon"));
    let (connector, _): (_, Action) = connector.step(ConnectEvent::Connected(DbBackend::MySql));
    let (connector, action) = connector.step(ConnectEvent::ExecuteFailed("denied"));
    assert!(matches!(connector, Connector::Finished));
    match action {
        ConnectAction::Fail(error) => {
            assert!(matches!(error, ConnectError::Driver("denied")));
            assert_eq!(error.message(), None);
        }
        other => panic!("{:?}", other),
    }
}

#[test]
fn server_refuses_missing_name() {
    for (backend, words) in [
        (DbBackend::Postgres, "Database name is required for postgres connections"),
        (DbBackend::MySql, "Database name is required for mysql connections"),
    ] {
        let (connector, _) = begin(None);
        let (connector, action): (_, Action) = connector.step(ConnectEvent::Connected(backend));
        match action {
            ConnectAction::Fail(error) => assert_eq!(error.message(), Some(words.to_string())),
            other => panic!("{:?}", other),
        }
        let (_, action): (_, Action) = connector.step(ConnectEvent::Executed);
        assert!(matches!(action, ConnectAction::Ignore));
    }
}

#[test]
fn first_connection_can_fail() {
    let (connector, _) = begin(Some("cardamon"));
    let (_, action) = connector.step(ConnectEvent::ConnectFailed("refused"));
    assert!(matches!(action, ConnectAction::Fail(ConnectError::Driver("refused"))));
}

#[test]
fn postgres_database_failure_is_named() {
    let (connector, _) = begin(Some("cardamon"));
    let (connector, _): (_, Action) = connector.step(ConnectEvent::Connected(DbBackend::Postgres));
    let (connector, _): (_, Action) = connector.step(ConnectEvent::Executed);
    let (_, action) = connector.step(ConnectEvent::ConnectFailed("refused"));
    match action {
        ConnectAction::Fail(error) => {
            assert_eq!(error.message(), Some("Error creating postgresql database.".to_string()))
        }
        other => panic!("{:?}", other),
    }
}
