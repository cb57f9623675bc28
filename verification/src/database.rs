//! How to get a connection to the database that holds the measurements.
//!
//! A connection to the server comes first. A SQLite file needs nothing more; on a database server
//! the database is created and connected to. The `Connector` says what to do next, and is told how
//! it went.
use vstd::prelude::*;
use vstd::string::*;

verus! {

/// What a connection speaks to.
#[derive(Debug, Clone, Copy, PartialEq, Eq, Structural)]
pub enum DbBackend {
    MySql,
    Postgres,
    Sqlite,
}

/// A database server, on which a database has to be created.
#[derive(Debug, Clone, Copy, PartialEq, Eq, Structural)]
pub enum Server {
    MySql,
    Postgres,
}

/// Where the work on a connection stands.
#[derive(Debug)]
pub enum Connector {
    /// The connection to the given address is being opened.
    Opening { url: String, name: Option<String> },
    /// The database is being created; `url` is its address.
    Creating { server: Server, url: String },
    /// The connection to the database is being opened.
    Entering { server: Server },
    /// Nothing is left to do.
    Finished,
}

/// How the last action went. `E` is an error of the database driver.
#[derive(Debug)]
pub enum ConnectEvent<E> {
    Connected(DbBackend),
    ConnectFailed(E),
    Executed,
    ExecuteFailed(E),
}

/// What to do next.
#[derive(Debug)]
pub enum ConnectAction<E> {
    /// Open a connection to this address.
    Connect(String),
    /// Execute this statement on the connection that was opened last.
    Execute(String),
    /// Hand out the connection that was opened last.
    UseConnection,
    /// Give up.
    Fail(ConnectError<E>),
    /// Nothing: the event does not belong here.
    Ignore,
}

/// Why there is no connection.
#[derive(Debug)]
pub enum ConnectError<E> {
    /// The driver could not do what it was asked.
    Driver(E),
    /// The server needs the name of a database.
    NameRequired(Server),
    /// The database could not be connected to.
    Database(Server, E),
}

/// A `Connector` with characters in place of strings.
pub enum ConnectorView {
    Opening { url: Seq<char>, name: Option<Seq<char>> },
    Creating { server: Server, url: Seq<char> },
    Entering { server: Server },
    Finished,
}

/// A `ConnectAction` with characters in place of strings.
pub enum ConnectActionView<E> {
    Connect(Seq<char>),
    Execute(Seq<char>),
    UseConnection,
    Fail(ConnectError<E>),
    Ignore,
}

impl View for Connector {
    type V = ConnectorView;

    open spec fn view(&self) -> ConnectorView {
        match self {
            Connector::Opening { url, name } => ConnectorView::Opening {
                url: url@,
                name: match name {
                    Some(n) => Some(n@),
                    None => None,
                },
            },
            Connector::Creating { server, url } => ConnectorView::Creating {
                server: *server,
                url: url@,
            },
            Connector::Entering { server } => ConnectorView::Entering { server: *server },
            Connector::Finished => ConnectorView::Finished,
        }
    }
}

impl<E> View for ConnectAction<E> {
    type V = ConnectActionView<E>;

    open spec fn view(&self) -> ConnectActionView<E> {
        match self {
            ConnectAction::Connect(url) => ConnectActionView::Connect(url@),
            ConnectAction::Execute(sql) => ConnectActionView::Execute(sql@),
            ConnectAction::UseConnection => ConnectActionView::UseConnection,
            ConnectAction::Fail(error) => ConnectActionView::Fail(*error),
            ConnectAction::Ignore => ConnectActionView::Ignore,
        }
    }
}

/// The server that a backend is, if it is one.
pub open spec fn server_of(backend: DbBackend) -> Option<Server> {
    match backend {
        DbBackend::MySql => Some(Server::MySql),
        DbBackend::Postgres => Some(Server::Postgres),
        DbBackend::Sqlite => None,
    }
}

/// The statement that creates a database.
pub open spec fn create_statement(server: Server, name: Seq<char>) -> Seq<char> {
    match server {
        Server::MySql => "CREATE DATABASE IF NOT EXISTS `"@ + name + "`;"@,
        Server::Postgres => "CREATE DATABASE \""@ + name + "\";"@,
    }
}

/// The address of a database on a server.
pub open spec fn database_address(url: Seq<char>, name: Seq<char>) -> Seq<char> {
    url + "/"@ + name
}

/// What follows the first connection.
pub open spec fn after_opening<E>(
    url: Seq<char>,
    name: Option<Seq<char>>,
    backend: DbBackend,
) -> (ConnectorView, ConnectActionView<E>) {
    match (server_of(backend), name) {
        (None, _) => (ConnectorView::Finished, ConnectActionView::UseConnection),
        (Some(server), None) => (
            ConnectorView::Finished,
            ConnectActionView::Fail(ConnectError::NameRequired(server)),
        ),
        (Some(server), Some(n)) => (
            ConnectorView::Creating { server, url: database_address(url, n) },
            ConnectActionView::Execute(create_statement(server, n)),
        ),
    }
}

/// The next state and action. On Postgres, which cannot be asked to create a database only where
/// it is missing, a failure to create it is passed over.
pub open spec fn connect_step<E>(state: ConnectorView, event: ConnectEvent<E>) -> (
    ConnectorView,
    ConnectActionView<E>,
) {
    match (state, event) {
        (ConnectorView::Opening { url, name }, ConnectEvent::Connected(backend)) => after_opening(
            url,
            name,
            backend,
        ),
        (ConnectorView::Opening { .. }, ConnectEvent::ConnectFailed(e)) => (
            ConnectorView::Finished,
            ConnectActionView::Fail(ConnectError::Driver(e)),
        ),
        (ConnectorView::Creating { server, url }, ConnectEvent::Executed) => (
            ConnectorView::Entering { server },
            ConnectActionView::Connect(url),
        ),
        (ConnectorView::Creating { server, url }, ConnectEvent::ExecuteFailed(e)) => match server {
            Server::Postgres => (
                ConnectorView::Entering { server },
                ConnectActionView::Connect(url),
            ),
            Server::MySql => (
                ConnectorView::Finished,
                ConnectActionView::Fail(ConnectError::Driver(e)),
            ),
        },
        (ConnectorView::Entering { .. }, ConnectEvent::Connected(_)) => (
            ConnectorView::Finished,
            ConnectActionView::UseConnection,
        ),
        (ConnectorView::Entering { server }, ConnectEvent::ConnectFailed(e)) => (
            ConnectorView::Finished,
            ConnectActionView::Fail(ConnectError::Database(server, e)),
        ),
        (_, _) => (state, ConnectActionView::Ignore),
    }
}

/// Begins the work on a connection to the database called `database_name`, if there is a name, at
/// `database_url`.
pub fn db_connect<E>(database_url: &str, database_name: Option<&str>) -> (begun: (
    Connector,
    ConnectAction<E>,
))
    ensures
        begun.0@ == (ConnectorView::Opening {
            url: database_url@,
            name: match database_name {
                Some(n) => Some(n@),
                None => None,
            },
        }),
        begun.1@ == ConnectActionView::<E>::Connect(database_url@),
{
    let name = match database_name {
        Some(n) => Some(n.to_string()),
        None => None,
    };
    (
        Connector::Opening { url: database_url.to_string(), name },
        ConnectAction::Connect(database_url.to_string()),
    )
}

impl Connector {
    /// Takes note of how the last action went and says what to do next.
    pub fn step<E>(self, event: ConnectEvent<E>) -> (next: (Connector, ConnectAction<E>))
        ensures
            (next.0@, next.1@) == connect_step(self@, event),
    {
        match (self, event) {
            (Connector::Opening { url, name }, ConnectEvent::Connected(backend)) => {
                let server = match backend {
                    DbBackend::Sqlite => {
                        return (Connector::Finished, ConnectAction::UseConnection);
                    },
                    DbBackend::Postgres => Server::Postgres,
                    DbBackend::MySql => Server::MySql,
                };
                match name {
                    None => (
                        Connector::Finished,
                        ConnectAction::Fail(ConnectError::NameRequired(server)),
                    ),
                    Some(n) => {
                        let sql = match server {
                            Server::MySql => "CREATE DATABASE IF NOT EXISTS `".to_string().concat(
                                n.as_str(),
                            ).concat("`;"),
                            Server::Postgres => "CREATE DATABASE \"".to_string().concat(
                                n.as_str(),
                            ).concat("\";"),
                        };
                        let url = url.concat("/").concat(n.as_str());
                        (Connector::Creating { server, url }, ConnectAction::Execute(sql))
                    },
                }
            },
            (Connector::Opening { .. }, ConnectEvent::ConnectFailed(e)) => (
                Connector::Finished,
                ConnectAction::Fail(ConnectError::Driver(e)),
            ),
            (Connector::Creating { server, url }, ConnectEvent::Executed) => (
                Connector::Entering { server },
                ConnectAction::Connect(url),
            ),
            (Connector::Creating { server, url }, ConnectEvent::ExecuteFailed(e)) => match server {
                Server::Postgres => (Connector::Entering { server }, ConnectAction::Connect(url)),
                Server::MySql => (
                    Connector::Finished,
                    ConnectAction::Fail(ConnectError::Driver(e)),
                ),
            },
            (Connector::Entering { .. }, ConnectEvent::Connected(_)) => (
                Connector::Finished,
                ConnectAction::UseConnection,
            ),
            (Connector::Entering { server }, ConnectEvent::ConnectFailed(e)) => (
                Connector::Finished,
                ConnectAction::Fail(ConnectError::Database(server, e)),
            ),
            (state, _) => (state, ConnectAction::Ignore),
        }
    }
}

impl<E> ConnectError<E> {
    /// What the error tells the user, over what the driver says.
    pub open spec fn text(&self) -> Option<Seq<char>> {
        match self {
            ConnectError::Driver(_) => None,
            ConnectError::NameRequired(Server::MySql) => Some(
                "Database name is required for mysql connections"@,
            ),
            ConnectError::NameRequired(Server::Postgres) => Some(
                "Database name is required for postgres connections"@,
            ),
            ConnectError::Database(Server::MySql, _) => Some("Error creating mysql database."@),
            ConnectError::Database(Server::Postgres, _) => Some(
                "Error creating postgresql database."@,
            ),
        }
    }

    /// The message of the error, if it has more to say than the driver.
    pub fn message(&self) -> (message: Option<String>)
        ensures
            match message {
                Some(m) => self.text() == Some(m@),
                None => self.text() is None,
            },
    {
        match self {
            ConnectError::Driver(_) => None,
            ConnectError::NameRequired(Server::MySql) => Some(
                "Database name is required for mysql connections".to_string(),
            ),
            ConnectError::NameRequired(Server::Postgres) => Some(
                "Database name is required for postgres connections".to_string(),
            ),
            ConnectError::Database(Server::MySql, _) => Some(
                "Error creating mysql database.".to_string(),
            ),
            ConnectError::Database(Server::Postgres, _) => Some(
                "Error creating postgresql database.".to_string(),
            ),
        }
    }
}

/// A SQLite file is used as soon as it is open, with or without a database name.
pub proof fn law_sqlite_needs_one_connection<E>(url: Seq<char>, name: Option<Seq<char>>)
    ensures
        connect_step::<E>(
            ConnectorView::Opening { url, name },
            ConnectEvent::Connected(DbBackend::Sqlite),
        ) == (ConnectorView::Finished, ConnectActionView::<E>::UseConnection),
{
}

/// On a server, a database is created and connected to under its own address, and the connection
/// that is handed out is the one to the database.
pub proof fn law_server_connects_to_named_database<E>(
    url: Seq<char>,
    name: Seq<char>,
    backend: DbBackend,
    server: Server,
    again: DbBackend,
)
    requires
        server_of(backend) == Some(server),
    ensures
        ({
            let opening = ConnectorView::Opening { url, name: Some(name) };
            let (creating, first) = connect_step::<E>(opening, ConnectEvent::Connected(backend));
            let (entering, second) = connect_step::<E>(creating, ConnectEvent::Executed);
            let (last, third) = connect_step::<E>(entering, ConnectEvent::Connected(again));
            &&& first == ConnectActionView::<E>::Execute(create_statement(server, name))
            &&& second == ConnectActionView::<E>::Connect(database_address(url, name))
            &&& third == ConnectActionView::<E>::UseConnection
            &&& last == ConnectorView::Finished
        }),
{
}

/// On Postgres it makes no difference whether the database could be created.
pub proof fn law_postgres_passes_over_create_failure<E>(url: Seq<char>, error: E)
    ensures
        ({
            let creating = ConnectorView::Creating { server: Server::Postgres, url };
            connect_step(creating, ConnectEvent::ExecuteFailed(error)) == connect_step(
                creating,
                ConnectEvent::<E>::Executed,
            )
        }),
{
}

/// On a server without a database name, nothing is executed and no other connection is opened.
pub proof fn law_server_refuses_missing_name<E>(
    url: Seq<char>,
    backend: DbBackend,
    server: Server,
    later: ConnectEvent<E>,
)
    requires
        server_of(backend) == Some(server),
    ensures
        ({
            let opening = ConnectorView::Opening { url, name: None };
            let (last, action) = connect_step::<E>(opening, ConnectEvent::Connected(backend));
            &&& action == ConnectActionView::<E>::Fail(ConnectError::NameRequired(server))
            &&& connect_step(last, later) == (last, ConnectActionView::<E>::Ignore)
        }),
{
}

/// On a server, the database is created by a statement that names it, and the second connection is
/// opened to the text that consists of the address of the server, one slash and the name of the
/// database. On Postgres this holds whether or not the database could be created.
pub proof fn law_server_creates_and_enters_the_named_database<E>(
    url: Seq<char>,
    name: Seq<char>,
    backend: DbBackend,
    created: ConnectEvent<E>,
)
    requires
        backend != DbBackend::Sqlite,
        created is Executed || (backend == DbBackend::Postgres && created is ExecuteFailed),
    ensures
        ({
            let opening = ConnectorView::Opening { url, name: Some(name) };
            let (creating, first) = connect_step::<E>(opening, ConnectEvent::Connected(backend));
            let second = connect_step::<E>(creating, created).1;
            &&& backend == DbBackend::MySql ==> first == ConnectActionView::<E>::Execute(
                "CREATE DATABASE IF NOT EXISTS `"@ + name + "`;"@,
            )
            &&& backend == DbBackend::Postgres ==> first == ConnectActionView::<E>::Execute(
                "CREATE DATABASE \""@ + name + "\";"@,
            )
            &&& second matches ConnectActionView::Connect(address) && {
                &&& address.len() == url.len() + 1 + name.len()
                &&& address.take(url.len() as int) == url
                &&& address[url.len() as int] == '/'
                &&& address.skip(url.len() as int + 1) == name
            }
        }),
{
    reveal_strlit("/");
    let opening = ConnectorView::Opening { url, name: Some(name) };
    let creating = connect_step::<E>(opening, ConnectEvent::Connected(backend)).0;
    let second = connect_step::<E>(creating, created).1;
    let address = second->Connect_0;
    assert(address.take(url.len() as int) =~= url);
    assert(address.skip(url.len() as int + 1) =~= name);
}

/// On a server, databases of different names are entered at different addresses, and so is a
/// database of one name on servers whose addresses differ.
pub proof fn law_databases_have_addresses_of_their_own<E>(
    url: Seq<char>,
    name: Seq<char>,
    other_url: Seq<char>,
    other_name: Seq<char>,
    backend: DbBackend,
)
    requires
        backend != DbBackend::Sqlite,
        url == other_url && name != other_name || url != other_url && name == other_name,
    ensures
        ({
            let one = connect_step::<E>(
                ConnectorView::Opening { url, name: Some(name) },
                ConnectEvent::Connected(backend),
            ).0;
            let other = connect_step::<E>(
                ConnectorView::Opening { url: other_url, name: Some(other_name) },
                ConnectEvent::Connected(backend),
            ).0;
            connect_step::<E>(one, ConnectEvent::Executed).1 != connect_step::<E>(
                other,
                ConnectEvent::Executed,
            ).1
        }),
{
    let done = ConnectEvent::<E>::Executed;
    law_server_creates_and_enters_the_named_database(url, name, backend, done);
    law_server_creates_and_enters_the_named_database(other_url, other_name, backend, done);
}

/// A connection that fails is reported with the error of the driver: as such while the server is
/// connected to, and as one of the database on that server while the database is. A database that
/// MySQL cannot create ends the work with the error of the driver, and a database without a name
/// ends it on either server.
pub proof fn law_connect_failures<E>(
    url: Seq<char>,
    name: Option<Seq<char>>,
    address: Seq<char>,
    backend: DbBackend,
    server: Server,
    error: E,
)
    ensures
        connect_step(ConnectorView::Opening { url, name }, ConnectEvent::ConnectFailed(error)) == (
            ConnectorView::Finished,
            ConnectActionView::Fail(ConnectError::Driver(error)),
        ),
        connect_step(
            ConnectorView::Creating { server: Server::MySql, url: address },
            ConnectEvent::ExecuteFailed(error),
        ) == (ConnectorView::Finished, ConnectActionView::Fail(ConnectError::Driver(error))),
        connect_step(ConnectorView::Entering { server }, ConnectEvent::ConnectFailed(error)) == (
            ConnectorView::Finished,
            ConnectActionView::Fail(ConnectError::Database(server, error)),
        ),
        connect_step::<E>(
            ConnectorView::Opening { url, name: None },
            ConnectEvent::Connected(DbBackend::MySql),
        ) == (
            ConnectorView::Finished,
            ConnectActionView::<E>::Fail(ConnectError::NameRequired(Server::MySql)),
        ),
        connect_step::<E>(
            ConnectorView::Opening { url, name: None },
            ConnectEvent::Connected(DbBackend::Postgres),
        ) == (
            ConnectorView::Finished,
            ConnectActionView::<E>::Fail(ConnectError::NameRequired(Server::Postgres)),
        ),
{
}

/// The server that a database is created on and the one that is connected to for it are the server
/// that was connected to first.
pub proof fn law_server_is_the_one_connected_to<E>(
    url: Seq<char>,
    name: Seq<char>,
    error: E,
)
    ensures
        ({
            let opening = ConnectorView::Opening { url, name: Some(name) };
            let my = connect_step::<E>(opening, ConnectEvent::Connected(DbBackend::MySql)).0;
            let pg = connect_step::<E>(opening, ConnectEvent::Connected(DbBackend::Postgres)).0;
            let entering_my = connect_step::<E>(my, ConnectEvent::Executed).0;
            let entering_pg = connect_step::<E>(pg, ConnectEvent::Executed).0;
            &&& connect_step(entering_my, ConnectEvent::ConnectFailed(error)).1
                == ConnectActionView::Fail(ConnectError::Database(Server::MySql, error))
            &&& connect_step(entering_pg, ConnectEvent::ConnectFailed(error)).1
                == ConnectActionView::Fail(ConnectError::Database(Server::Postgres, error))
        }),
{
}

/// A connection is handed out only where one was opened last: to a SQLite file, or to the database
/// on a server. Work that has ended does nothing more.
pub proof fn law_connection_is_handed_out_once<E>(state: ConnectorView, event: ConnectEvent<E>)
    ensures
        ({
            let (next, action) = connect_step(state, event);
            &&& action is UseConnection <==> event is Connected && (state is Entering || (
            state is Opening && event == ConnectEvent::<E>::Connected(DbBackend::Sqlite)))
            &&& action is UseConnection || action is Fail ==> next is Finished
            &&& state is Finished ==> next == state && action is Ignore
            &&& action is Ignore ==> next == state
        }),
{
}

/// The views of a connector and of its actions show every field, strings by their characters.
pub proof fn law_connector_views_show_every_field<E>(
    url: String,
    name: String,
    server: Server,
    error: ConnectError<E>,
)
    ensures
        (Connector::Opening { url, name: Some(name) })@ == (ConnectorView::Opening {
            url: url@,
            name: Some(name@),
        }),
        (Connector::Opening { url, name: None })@ == (ConnectorView::Opening {
            url: url@,
            name: None,
        }),
        (Connector::Creating { server, url })@ == (ConnectorView::Creating { server, url: url@ }),
        (Connector::Entering { server })@ == (ConnectorView::Entering { server }),
        Connector::Finished@ == ConnectorView::Finished,
        ConnectAction::<E>::Connect(url)@ == ConnectActionView::<E>::Connect(url@),
        ConnectAction::<E>::Execute(url)@ == ConnectActionView::<E>::Execute(url@),
        ConnectAction::<E>::UseConnection@ == ConnectActionView::<E>::UseConnection,
        ConnectAction::Fail(error)@ == ConnectActionView::Fail(error),
        ConnectAction::<E>::Ignore@ == ConnectActionView::<E>::Ignore,
{
}

} // verus!
