[package]
name = "bdp"
version = "0.1.0"
edition = "2021"
publish = false

[dependencies]
base64 = "*"
case = "*"
chrono = "*"
csv = "*"
deunicode = "*"
md5 = "*"
quick-xml = "*"
rand = "0.9"
serde_json = "*"
serde_urlencoded = "*"
serde_yaml = "*"
sha1 = "*"
sha2 = "*"
sqlformat = "*"
xmltree = "*"
