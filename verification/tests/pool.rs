//! The pool-acquisition failure path, driven with a real pool error.

use std::time::Duration;

use vault_kv::backend::pool_error;
use vault_kv::errors::RvError;

/// A connection manager that can never connect: every acquisition from a
/// pool over it times out.
#[derive(Debug)]
struct NeverConnects;

impl r2d2::ManageConnection for NeverConnects {
    type Connection = ();
    type Error = std::io::Error;

    fn connect(&self) -> Result<(), std::io::Error> {
        Err(std::io::Error::new(std::io::ErrorKind::ConnectionRefused, "no database here"))
    }

    fn is_valid(&self, _conn: &mut ()) -> Result<(), std::io::Error> {
        Err(std::io::Error::new(std::io::ErrorKind::ConnectionRefused, "no database here"))
    }

    fn has_broken(&self, _conn: &mut ()) -> bool {
        true
    }
}

#[test]
fn failed_acquisition_becomes_the_pool_error() {
    let pool = r2d2::Pool::builder()
        .connection_timeout(Duration::from_millis(50))
        .build_unchecked(NeverConnects);
    let source = pool.get().err().expect("acquisition must fail without a database");
    let err = pool_error(source);
    assert!(matches!(err, RvError::ErrConnectionPoolGet { .. }));
    assert_eq!(err.describe(), "connection pool get error");
}

#[test]
fn connection_info_error_describes_itself() {
    assert_eq!(
        RvError::ErrDatabaseConnectionInfoInvalid.describe(),
        "database connection info invalid"
    );
}
