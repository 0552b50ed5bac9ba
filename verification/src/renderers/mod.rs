pub mod ics;
