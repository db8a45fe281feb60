//! Verified core of a collection of small networking tools: a product
//! catalogue service, a file server and client, a caching proxy, a mail
//! composer and its SMTP dialogue, a remote shell, ping over UDP and over
//! ICMP, a reliable transfer protocol over lossy datagrams, a traceroute,
//! interface and port scanners, peers that find each other on a subnet, a
//! shared canvas and a throughput meter.

pub mod words;
pub mod text;
pub mod endian;
pub mod uuids;

pub mod products;
pub mod shop;

pub mod pool;
pub mod http;
pub mod proxy;

pub mod mail;
pub mod letter;
pub mod shell;
pub mod ftp;

pub mod ping_stats;
pub mod clients;

pub mod segment;
pub mod rdt;

pub mod interfaces;
pub mod scanning;
pub mod licensed;

pub mod message_types;
pub mod control;
pub mod echo;
pub mod trace;
pub mod traceroute;
pub mod drawing;

pub mod speed;
