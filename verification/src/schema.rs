//! The canonical migration sequence of the flight log: four guarded
//! table creations, one version each, fixed at build time. Guarded
//! creation keeps a retried application harmless.

use vstd::prelude::*;
use vstd::string::StringExecFns;
use crate::migration::{unique_versions, Migration};

verus! {

/// The schema delta of version 1: the flights table.
pub open spec fn flights_delta() -> Seq<char> {
    "CREATE TABLE IF NOT EXISTS flights (
                id INTEGER PRIMARY KEY AUTOINCREMENT,
                dep_airport TEXT NOT NULL,
                arr_airport TEXT NOT NULL,
                flight_num TEXT NOT NULL,
                callsign TEXT NOT NULL,
                airline_icao TEXT NOT NULL,
                aircraft INTEGER NOT NULL,
                duration INTEGER NOT NULL,
                archived BOOLEAN DEFAULT 0,
                created_at DATETIME DEFAULT CURRENT_TIMESTAMP,
                last_edited DATETIME DEFAULT CURRENT_TIMESTAMP
            )"@
}

/// The schema delta of version 2: the aircraft table.
pub open spec fn aircraft_delta() -> Seq<char> {
    "CREATE TABLE IF NOT EXISTS aircraft (
                id INTEGER PRIMARY KEY AUTOINCREMENT,
                name TEXT NOT NULL,
                model TEXT NOT NULL,
                manufacturer TEXT NOT NULL,
                icao_code TEXT NOT NULL,
                created_at DATETIME DEFAULT CURRENT_TIMESTAMP
            )"@
}

/// The schema delta of version 3: the airports table.
pub open spec fn airports_delta() -> Seq<char> {
    "CREATE TABLE IF NOT EXISTS airports (
                id INTEGER PRIMARY KEY NOT NULL,
                type TEXT NOT NULL,
                name TEXT NOT NULL,
                latitude_deg REAL NOT NULL,
                longitude_deg REAL NOT NULL,
                elevation_ft INTEGER,
                continent TEXT NOT NULL,
                iso_country TEXT NOT NULL,
                iso_region TEXT NOT NULL,
                icao_code TEXT,
                iata_code TEXT,
                home_link TEXT
            )"@
}

/// The schema delta of version 4: the airlines table.
pub open spec fn airlines_delta() -> Seq<char> {
    "CREATE TABLE IF NOT EXISTS airlines (
                id INTEGER PRIMARY KEY NOT NULL,
                name STRING NOT NULL,
                alias STRING,
                iata STRING,
                icao STRING NOT NULL,
                callsign STRING,
                country STRING NOT NULL,
                active BOOLEAN NOT NULL
            )"@
}

/// The full ordered migration sequence: versions 1 through 4, creating
/// the flights, aircraft, airports and airlines tables.
pub fn standard_migrations() -> (r: Vec<Migration>)
    ensures
        r@.len() == 4,
        forall|i: int| 0 <= i < 4 ==> (#[trigger] r@[i].version) == i + 1,
        unique_versions(r@),
        r@[0].statement@ == flights_delta(),
        r@[1].statement@ == aircraft_delta(),
        r@[2].statement@ == airports_delta(),
        r@[3].statement@ == airlines_delta(),
{
    let mut r: Vec<Migration> = Vec::new();
    r.push(
        Migration {
            version: 1,
            description: String::from_str("create flights table"),
            statement: String::from_str(
                "CREATE TABLE IF NOT EXISTS flights (
                id INTEGER PRIMARY KEY AUTOINCREMENT,
                dep_airport TEXT NOT NULL,
                arr_airport TEXT NOT NULL,
                flight_num TEXT NOT NULL,
                callsign TEXT NOT NULL,
                airline_icao TEXT NOT NULL,
                aircraft INTEGER NOT NULL,
                duration INTEGER NOT NULL,
                archived BOOLEAN DEFAULT 0,
                created_at DATETIME DEFAULT CURRENT_TIMESTAMP,
                last_edited DATETIME DEFAULT CURRENT_TIMESTAMP
            )",
            ),
        },
    );
    r.push(
        Migration {
            version: 2,
            description: String::from_str("create aircraft table"),
            statement: String::from_str(
                "CREATE TABLE IF NOT EXISTS aircraft (
                id INTEGER PRIMARY KEY AUTOINCREMENT,
                name TEXT NOT NULL,
                model TEXT NOT NULL,
                manufacturer TEXT NOT NULL,
                icao_code TEXT NOT NULL,
                created_at DATETIME DEFAULT CURRENT_TIMESTAMP
            )",
            ),
        },
    );
    r.push(
        Migration {
            version: 3,
            description: String::from_str("create airports table"),
            statement: String::from_str(
                "CREATE TABLE IF NOT EXISTS airports (
                id INTEGER PRIMARY KEY NOT NULL,
                type TEXT NOT NULL,
                name TEXT NOT NULL,
                latitude_deg REAL NOT NULL,
                longitude_deg REAL NOT NULL,
                elevation_ft INTEGER,
                continent TEXT NOT NULL,
                iso_country TEXT NOT NULL,
                iso_region TEXT NOT NULL,
                icao_code TEXT,
                iata_code TEXT,
                home_link TEXT
            )",
            ),
        },
    );
    r.push(
        Migration {
            version: 4,
            description: String::from_str("create airlines table"),
            statement: String::from_str(
                "CREATE TABLE IF NOT EXISTS airlines (
                id INTEGER PRIMARY KEY NOT NULL,
                name STRING NOT NULL,
                alias STRING,
                iata STRING,
                icao STRING NOT NULL,
                callsign STRING,
                country STRING NOT NULL,
                active BOOLEAN NOT NULL
            )",
            ),
        },
    );
    r
}

} // verus!
