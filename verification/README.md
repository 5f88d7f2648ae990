# rental-api

A house-rental service (countries, managers, persons, addresses, houses,
per-day calendars and bookings), its data seeder, and the target selection
of its load generator.

- `src/` is the verified library. It holds the rules and decisions of the
  service: request field rules and their error details, the calendar and
  booking rules (what a booking costs, when it, its cancellation or its
  payment is refused), the error type and its HTTP answers, the settings,
  the seeder's planning (steps, volumes, rows, the binary calendar copy,
  booking schedules) and the load generator's fixture selection. A spec
  model of the calendar statements (`stored.rs`) carries the laws that tie
  the rules together; the SQL in `app/` is written to do what that model
  says, but nothing proves that it does.
- `tests/` runs the library on concrete values.
- `app/` is the program around it: the actix-web server with its SQL, and
  the seeder's commands (`reset`, `load`, `verify`).

Dates are day numbers from the common era; amounts are hundredths.
